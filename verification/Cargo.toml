[package]
name = "on_demand"
version = "0.1.0"
edition = "2021"
publish = false

[dependencies]
futures = "0.1"
rand = "0.3"
rlp = "0.4"
tiny-keccak = "1.5"
