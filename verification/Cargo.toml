[package]
name = "conftier"
version = "0.1.0"
edition = "2021"
publish = false

[dependencies]
clap = { version = "*", features = ["derive"] }
dirs = "*"
env_logger = "*"
log = "*"
serde = "*"
serde_yaml = "*"
