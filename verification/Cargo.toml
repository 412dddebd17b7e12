[package]
name = "infinimath"
version = "0.1.0"
edition = "2021"
publish = false

[dependencies]
bigdecimal = { version = "0.4", features = ["serde"] }
chrono = "0.4"
num-bigint = { version = "0.4", features = ["rand"] }
num-traits = "0.2"
p256 = { version = "0.13", features = ["ecdsa"] }
rand = "0.8"
rand_core = { version = "0.6", features = ["getrandom"] }
serde = { version = "1", features = ["derive"] }
serde_json = "1"
sha2 = "0.10"
sha3 = "0.10"
