[package]
name = "bucketlist"
version = "0.1.0"
edition = "2021"
publish = false

[dependencies]
clap = { version = "3", features = ["derive"] }
dirs = "4"
env_logger = "0.9"
indexmap = { version = "1", features = ["serde", "std"] }
log = "0.4"
main_error = "0.1"
serde = { version = "1", features = ["derive"] }
serde_json = "1"
thiserror = "1"
