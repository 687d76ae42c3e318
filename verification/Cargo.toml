[package]
name = "indexer_tap"
version = "0.1.0"
edition = "2021"
publish = false

[dependencies]
alloy-primitives = "*"
alloy-sol-types = "*"
anyhow = "1"
thiserror = "1"
serde = { version = "1", features = ["derive"] }
serde_json = "1"
bigdecimal = "0.4"
tokio = { version = "1", features = ["sync", "time", "macros", "rt"] }
tracing = "0.1"
log = "0.4"
lazy_static = "1"
async-trait = "0.1"
eventuals = "0.6"
ractor = "*"
sqlx = { version = "0.8", default-features = false, features = ["postgres", "runtime-tokio", "bigdecimal", "json"] }
