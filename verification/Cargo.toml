[package]
name = "albatross_chain"
version = "0.1.0"
edition = "2021"
publish = false

[dependencies]
ark-ff = "0.4"
blake2 = "0.10"
log = "0.4"
parking_lot = "0.12"
thiserror = "1"
