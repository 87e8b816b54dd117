[package]
name = "powchain"
version = "0.1.0"
edition = "2021"
publish = false

[dependencies]
sha2 = "*"
secp256k1 = { version = "*", features = ["rand"] }
uuid = { version = "*", features = ["v4"] }
chrono = "*"
rand = "*"
serde = { version = "*", features = ["derive"] }
serde_json = "*"
