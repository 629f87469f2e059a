[package]
name = "cargo-with"
version = "0.3.0"
edition = "2021"
publish = false

[dependencies]
clap = "2"
env_logger = "0.6"
failure = "0.1"
log = "0.4"
serde = { version = "1", features = ["derive"] }
serde_json = "1"
void = "1"
