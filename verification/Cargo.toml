[package]
name = "ratify"
version = "0.1.0"
edition = "2021"
publish = false

[dependencies]
soroban-sdk = "*"
stellar-governance = "*"
stellar-tokens = "*"
