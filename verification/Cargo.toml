[package]
name = "token_contract"
version = "0.1.0"
edition = "2021"
publish = false

[dependencies]
soroban-sdk = "21"
soroban-token-sdk = "21"
