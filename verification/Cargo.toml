[package]
name = "blockchain"
version = "0.1.0"
edition = "2021"
publish = false

[dependencies]
rand = "0.7"
serde_json = "1"
sha2 = "0.8"
time = "0.1"
