[package]
name = "cwfees"
version = "0.1.0"
edition = "2021"
publish = false

[dependencies]
cosmos-sdk-proto = { version = "=0.20.0", default-features = false, features = ["cosmwasm"] }
prost = "=0.12.6"
cosmwasm-std = { version = "=1.5.11", features = ["stargate"] }
cosmwasm-schema = "=1.5.11"
cw-storage-plus = "=1.2.0"
thiserror = "1"
