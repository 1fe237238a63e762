[package]
name = "pgshard"
version = "0.1.0"
edition = "2021"
publish = false

[dependencies]
anyhow = "=1.0.104"
arc-swap = "=1.9.3"
async-trait = "=0.1.92"
bytes = "=1.12.1"
clap = { version = "=4.6.7", features = ["derive", "env"] }
futures = "=0.3.34"
futures-util = { version = "=0.3.34", features = ["sink"] }
pg_query = "=18.1.0"
pgwire = { version = "=0.42.1", features = ["client-api-aws-lc-rs"] }
postgres = "=0.19.14"
postgres-protocol = "=0.6.12"
serde_json = "=1.0.154"
tokio = { version = "=1.54.1", features = ["full"] }
tokio-postgres = "=0.7.18"
tonic = "=0.14.9"
tracing = "=0.1.44"
tracing-subscriber = { version = "=0.3.23", features = ["env-filter"] }
xxhash-rust = { version = "=0.8.19", features = ["xxh64"] }
