[package]
name = "mtg_engine"
version = "0.1.0"
edition = "2021"
publish = false

[dependencies]
hecs = "*"
rand = "0.8"
serde = { version = "1", features = ["derive"] }
serde_json = "1"
log = "0.4"
smol_str = "*"
env_logger = "*"
