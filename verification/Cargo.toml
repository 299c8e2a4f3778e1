[package]
name = "safe_client"
version = "0.1.0"
edition = "2021"
publish = false

[dependencies]
rust-crypto = "=0.2.36"
sodiumoxide = "=0.2.7"
rand = "=0.8.8"
