[package]
name = "nat_traversal"
version = "0.1.0"
edition = "2021"
publish = false

[dependencies]
scrypt = "0.11"
ip-in-subnet = "*"
rand = "0.8"
tokio = { version = "1", features = ["full"] }
log = "0.4"
env_logger = "0.10"
clap = "4"
reqwest = { version = "0.11", default-features = false }
