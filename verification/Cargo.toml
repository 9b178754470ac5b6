[package]
name = "blues"
version = "0.1.0"
edition = "2021"
publish = false

[dependencies]
ulid = "1"
time = { version = "0.3", features = ["formatting", "parsing", "serde", "macros"] }
tonic = { version = "0.12", default-features = false }
rusqlite = { version = "0.32", features = ["bundled"] }
serde = { version = "1", features = ["derive"] }
serde_json = "1"
thiserror = "1"
anyhow = "1"
async-trait = "0.1"
parking_lot = "0.12"
clap = { version = "4", features = ["derive"] }
tracing = "0.1"
tracing-subscriber = { version = "0.3", features = ["env-filter"] }
