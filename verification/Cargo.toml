[package]
name = "agave_runtime"
version = "0.1.0"
edition = "2021"
publish = false

[dependencies]
solana-sbpf = "*"
solana-pubkey = "*"
solana-sdk = "*"
solana-svm-transaction = "*"
solana-transaction = "*"
log = "*"
warp-devices = "*"
