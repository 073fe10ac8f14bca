//! The core of a network-ping monitoring service.
//!
//! Agents ("machines") measure their latency to a set of hosts ("targets")
//! and report samples ("pings"). This crate holds the identity store that
//! owns those records, the gateway that checks credentials, the pipeline
//! that takes samples in, the sweeper that expires them, and the queries
//! that serve them, each with a contract that Verus proves.

pub mod clock;
pub mod entity;
pub mod error;
pub mod extractors;
pub mod forms;
pub mod laws;
pub mod machines;
pub mod models;
pub mod mutation;
pub mod pings;
pub mod query;
pub mod seqs;
pub mod store;
pub mod sweeper;
pub mod targets;
pub mod text;
pub mod views;

pub use crate::entity::{Machine, Ping, Target};
pub use crate::error::{ApiError, AuthReason, StoreError};
pub use crate::extractors::{AdminUser, ApiClient, ApiUser, AppState};
pub use crate::forms::{MachineCreate, MachineCreateAdmin, PingCreate, PingFilter, TargetCreateAdmin};
pub use crate::models::{MachinePublic, MachineTargetsPublic, TargetPublic};
pub use crate::mutation::{DeleteResult, Mutation};
pub use crate::query::Query;
pub use crate::store::Store;
