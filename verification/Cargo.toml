[package]
name = "iptv_verify"
version = "0.1.0"
edition = "2021"
publish = false

[dependencies]
anyhow = "*"
clap = { version = "*", features = ["derive", "env"] }
dotenv = "*"
env_logger = "*"
log = "*"
reqwest = { version = "*", default-features = false, features = ["blocking"] }
