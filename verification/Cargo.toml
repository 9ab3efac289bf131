[package]
name = "rade"
version = "0.1.0"
edition = "2021"
publish = false

[dependencies]
regex = "1"
sha2 = "0.10"
hex = "0.4"
hashbrown = "0.15"
serde = { version = "1", features = ["derive"] }
serde_yaml_bw = "*"
uuid = { version = "1", features = ["serde"] }
bincode = { version = "2", features = ["serde"] }
anyhow = "1"
clap = { version = "4", features = ["derive"] }
env_logger = "*"
log = "0.4"
