[package]
name = "palette"
version = "0.1.0"
edition = "2021"
publish = false

[dependencies]
colored = "=3.1.1"
toml = "=1.1.7"
serde_json = "=1.0.151"
yaml-rust2 = "=0.13.0"
nuon = "=0.112.2"
nu-protocol = { version = "=0.112.2", default-features = false }
clap = { version = "=4.6.7", features = ["derive"] }
