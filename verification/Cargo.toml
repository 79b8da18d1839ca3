[package]
name = "walletka_node"
version = "0.1.0"
edition = "2021"
publish = false

[dependencies]
amqprs = "1"
anyhow = "1"
dotenv = "0.15"
env_logger = "0.10"
ldk-node = "0.2"
log = "0.4"
tokio = { version = "1", features = ["sync", "time", "rt-multi-thread", "macros"] }
bitcoin_hashes = "0.12"
rand = "0.8"
