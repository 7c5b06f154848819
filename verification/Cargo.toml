[package]
name = "sqlx_prepare"
version = "0.1.0"
edition = "2021"
publish = false

[dependencies]
anyhow = "=1.0.104"
backoff = { version = "=0.4.0", features = ["tokio"] }
cargo_metadata = "=0.14.2"
filetime = "=0.2.29"
futures = "=0.3.34"
hex = "=0.4.3"
proc-macro2 = "=1.0.107"
remove_dir_all = "=1.0.0"
serde = { version = "=1.0.229", features = ["derive"] }
serde_json = { version = "=1.0.154", features = ["raw_value"] }
sha2 = "=0.10.9"
tokio = { version = "=1.54.1", features = ["time"] }
