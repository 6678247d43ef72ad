[package]
name = "observer"
version = "0.1.0"
edition = "2021"
publish = false

[dependencies]
log = "0.4"
env_logger = "0.11"
ctrlc = "3"
serde = { version = "1", features = ["derive"] }
sysinfo = "*"
config = { version = "*", default-features = false, features = ["toml"] }
