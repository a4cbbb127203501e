[package]
name = "swarm_proxy"
version = "0.1.0"
edition = "2021"
publish = false

[dependencies]
json = "*"
kanal = "*"
tokio = { version = "*", features = ["full"] }
log = "*"
env_logger = "*"
