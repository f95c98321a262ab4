[package]
name = "sobre"
version = "0.1.0"
edition = "2021"
publish = false

[dependencies]
age = "=0.12.1"
bech32 = "=0.11.1"
