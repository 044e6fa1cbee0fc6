[package]
name = "shot_runner"
version = "0.1.0"
edition = "2021"
publish = false

[dependencies]
anyhow = "1"
fasteval = "0.2"
rand = { version = "0.9", features = ["small_rng"] }
serde = { version = "1", features = ["derive"] }
serde_json = "1"
tket-json-rs = "*"
