[package]
name = "loadsmith_plugins"
version = "0.1.0"
edition = "2021"
publish = false

[dependencies]
anyhow = "1"
arrow = { version = "*", default-features = false }
arrow-array = "*"
arrow-schema = "*"
async-trait = "0.1"
bytes = "1"
bytesize = "1"
chrono = "0.4"
futures-util = { version = "0.3", features = ["sink"] }
parquet = "*"
postgres-types = "0.2"
serde = { version = "1", features = ["derive"] }
serde_json = "1"
tokio = { version = "1", features = ["macros", "rt-multi-thread"] }
tokio-postgres = "0.7"
tokio-postgres-rustls-improved = { version = "*", default-features = false }
tracing = "0.1"
