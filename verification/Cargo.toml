[package]
name = "drk"
version = "0.1.0"
edition = "2021"
publish = false

[dependencies]
jubjub = "0.11"
group = "0.14"
bls12_381 = "0.8"
bellman = "0.14"
bs58 = "0.5"
log = "0.4"
smol = "2"
async-channel = "2"
