[package]
name = "aioracle"
version = "0.1.0"
edition = "2021"
publish = false

[dependencies]
sha2 = "0.10"
hex = "0.4"
cosmwasm-std = "1"
cosmwasm-schema = "1"
cw2 = "1"
thiserror = "1"
