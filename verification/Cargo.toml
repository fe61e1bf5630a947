[package]
name = "oracle_attacks"
version = "0.1.0"
edition = "2021"
publish = false

[dependencies]
aes = "0.8"
rand = "0.8"
num-bigint = "0.4"
rsa = "0.9"
