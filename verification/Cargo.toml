[package]
name = "roulette"
version = "0.1.0"
edition = "2021"
publish = false

[dependencies]
aes-gcm = "=0.10.3"
generic-array = "=0.14.7"
rand_core = "=0.6.4"
secret-toolkit-crypto = "=0.10.3"
secret-toolkit-storage = "=0.10.3"
secret-toolkit-viewing-key = "0.10"
secret-cosmwasm-std = "=1.1.11"
cosmwasm-schema = "=1.5.11"
schemars = "=0.8.22"
serde = { version = "=1.0.229", features = ["derive"] }
