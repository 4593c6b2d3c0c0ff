[package]
name = "tiny_agent_trainer"
version = "0.1.0"
edition = "2021"
publish = false

[dependencies]
naga = { version = "*", features = ["wgsl-in"] }
ndarray = "*"
rand = "*"
serde = { version = "*", features = ["derive"] }
serde_json = "*"
toml = "*"
anyhow = "*"
clap = { version = "*", features = ["derive"] }
thiserror = "*"
