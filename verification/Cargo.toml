[package]
name = "bitcoin_client"
version = "0.1.0"
edition = "2021"
publish = false

[dependencies]
async-trait = "0.1"
bitcoin = "0.29"
miniscript = "9.0"
