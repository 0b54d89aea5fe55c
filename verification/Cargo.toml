[package]
name = "typthon"
version = "0.1.0"
edition = "2021"
publish = false

[dependencies]
blake3 = "=1.8.7"
serde = { version = "=1.0.229", features = ["derive"] }
toml = "=1.1.8"
dashmap = "=6.2.1"
glob = "=0.3.4"
rustpython-parser = "=0.3.1"
num-traits = "=0.2.19"
