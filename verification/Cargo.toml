[package]
name = "colcodec"
version = "0.1.0"
edition = "2021"
publish = false

[dependencies]
flate2 = "=1.1.10"
serde = { version = "=1.0.229", features = ["derive"] }
serde_json = "=1.0.151"
serde_with = "=3.24.0"
bson = { version = "=3.1.0", features = ["serde"] }
bincode = { version = "=2.0.1", features = ["serde"] }
rand = "=0.10.3"
anyhow = "=1.0.104"
hex = "=0.4.3"
