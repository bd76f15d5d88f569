[package]
name = "fair_burn"
version = "0.1.0"
edition = "2021"
publish = false

[dependencies]
cosmwasm-std = "1"
cw2 = "1"
cw-storage-plus = "1"
cw-utils = "1"
sg-std = "*"
serde = { version = "1", features = ["derive"] }
