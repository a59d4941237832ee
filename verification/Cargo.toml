[package]
name = "tun2socks"
version = "0.1.0"
edition = "2021"
publish = false

[dependencies]
tokio = { version = "0.2", features = ["full"] }
futures = "0.3"
log = "0.4"
env_logger = "0.7"
clap = "3.0.0-beta.1"
async-socks5 = "0.3"
tun = { version = "0.5", features = ["async"] }
