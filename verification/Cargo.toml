[package]
name = "rpc_protocol"
version = "0.1.0"
edition = "2021"
publish = false

[dependencies]
serde = { version = "*", features = ["derive"] }
serde_json = "*"
serde_yaml = "*"
futures = "*"
async-trait = "*"
moka = { version = "*", features = ["future"] }
reqwest = { version = "*", default-features = false, features = ["blocking"] }
rust-stream-ext-concurrent = "*"
