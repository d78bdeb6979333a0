[package]
name = "nabla"
version = "0.1.0"
edition = "2021"
publish = false

[dependencies]
similar = { version = "=3.2.0", features = ["bytes"] }
clap = { version = "=4.6.7", features = ["derive"] }
crossbeam-channel = "=0.5.17"
log = "=0.4.34"
env_logger = "=0.11.11"
anyhow = "=1.0.104"
itertools = "=0.15.0"
