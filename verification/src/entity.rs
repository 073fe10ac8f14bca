//! The records of the identity store: machines, targets and pings.

use vstd::prelude::*;

use crate::views::opt_view;

verus! {

/// An agent that measures latency and reports it.
#[derive(Debug, PartialEq, Eq)]
pub struct Machine {
    /// Assigned by the store on creation.
    pub id: i32,
    /// Unique among machines.
    pub name: String,
    /// The literal address last observed for the machine.
    pub ip: String,
    /// The shared secret of the machine's own token.
    pub key: String,
    /// Seconds since the Unix epoch at creation.
    pub created: i64,
    /// Seconds since the Unix epoch of the last accepted ping, if any.
    pub updated: Option<i64>,
}

/// What a `Machine` holds, as mathematical values.
pub struct MachineView {
    pub id: i32,
    pub name: Seq<char>,
    pub ip: Seq<char>,
    pub key: Seq<char>,
    pub created: i64,
    pub updated: Option<i64>,
}

impl View for Machine {
    type V = MachineView;

    open spec fn view(&self) -> MachineView {
        MachineView {
            id: self.id,
            name: self.name@,
            ip: self.ip@,
            key: self.key@,
            created: self.created,
            updated: self.updated,
        }
    }
}

impl Clone for Machine {
    fn clone(&self) -> (copy: Self)
        ensures
            copy@ == self@,
    {
        Machine {
            id: self.id,
            name: self.name.clone(),
            ip: self.ip.clone(),
            key: self.key.clone(),
            created: self.created,
            updated: self.updated,
        }
    }
}

/// A copy of an optional string.
pub fn clone_opt_text(s: &Option<String>) -> (copy: Option<String>)
    ensures
        opt_view(copy) == opt_view(*s),
{
    match s {
        Some(t) => Some(t.clone()),
        None => None,
    }
}

/// A host whose latency the machines measure.
#[derive(Debug, PartialEq, Eq)]
pub struct Target {
    /// Assigned by the store on creation.
    pub id: i32,
    /// Unique among targets.
    pub name: String,
    pub domain: Option<String>,
    pub ipv4: Option<String>,
    pub ipv6: Option<String>,
    /// Seconds since the Unix epoch at creation.
    pub created: i64,
    /// Seconds since the Unix epoch of the last accepted ping, if any.
    pub updated: Option<i64>,
}

/// What a `Target` holds, as mathematical values.
pub struct TargetView {
    pub id: i32,
    pub name: Seq<char>,
    pub domain: Option<Seq<char>>,
    pub ipv4: Option<Seq<char>>,
    pub ipv6: Option<Seq<char>>,
    pub created: i64,
    pub updated: Option<i64>,
}

impl View for Target {
    type V = TargetView;

    open spec fn view(&self) -> TargetView {
        TargetView {
            id: self.id,
            name: self.name@,
            domain: opt_view(self.domain),
            ipv4: opt_view(self.ipv4),
            ipv6: opt_view(self.ipv6),
            created: self.created,
            updated: self.updated,
        }
    }
}

impl Clone for Target {
    fn clone(&self) -> (copy: Self)
        ensures
            copy@ == self@,
    {
        Target {
            id: self.id,
            name: self.name.clone(),
            domain: clone_opt_text(&self.domain),
            ipv4: clone_opt_text(&self.ipv4),
            ipv6: clone_opt_text(&self.ipv6),
            created: self.created,
            updated: self.updated,
        }
    }
}

/// One latency sample of a machine against a target.
#[derive(Clone, Copy, Debug, PartialEq, Eq, Structural)]
pub struct Ping {
    /// Assigned by the store on creation.
    pub id: i32,
    /// The machine that took the sample.
    pub machine_id: i32,
    /// The target that was probed.
    pub target_id: i32,
    /// Whether the probe went over IPv6.
    pub ipv6: bool,
    /// Seconds since the Unix epoch at which the store took the sample in.
    pub created: i64,
    /// Lowest latency seen in the sample window.
    pub min: i32,
    /// Average latency seen in the sample window.
    pub avg: i32,
    /// Number of probes that failed in the sample window.
    pub fail: i32,
}

} // verus!
