[package]
name = "ping_service"
version = "0.1.0"
edition = "2021"
publish = false

[dependencies]
anyhow = "=1.0.104"
async-trait = "=0.1.92"
axum = "=0.7.9"
axum-client-ip = "=0.6.1"
axum-extra = { version = "=0.9.6", features = ["typed-header"] }
chrono = "=0.4.45"
dotenvy = "=0.15.7"
sea-orm = { version = "1.1", default-features = false, features = ["macros", "runtime-tokio", "sqlx-postgres", "with-chrono"] }
sea-orm-migration = { version = "1.1", default-features = false, features = ["runtime-tokio", "sqlx-postgres"] }
serde = { version = "=1.0.229", features = ["derive"] }
serde_json = "=1.0.154"
tokio = { version = "=1.54.1", features = ["macros", "net", "rt-multi-thread", "signal", "sync", "time"] }
tower = { version = "=0.5.3", features = ["util"] }
tower-http = { version = "=0.6.11", features = ["fs"] }
tracing = "=0.1.44"
tracing-subscriber = { version = "=0.3.23", features = ["env-filter"] }
