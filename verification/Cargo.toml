[package]
name = "snaptest"
version = "0.1.0"
edition = "2021"
publish = false

[dependencies]
anyhow = "=1.0.104"
chrono = "=0.4.45"
glob = "=0.3.4"
pulse = "=0.5.3"
serde = "=1.0.229"
serde_json = "=1.0.151"
