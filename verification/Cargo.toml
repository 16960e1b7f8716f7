[package]
name = "btc_utxo_dump"
version = "0.1.0"
edition = "2021"
publish = false

[dependencies]
anyhow = "*"
bitcoin-bech32 = "*"
bs58 = "*"
clap = { version = "*", features = ["derive"] }
csv = "*"
db-key = "*"
hex = "*"
leveldb = "*"
ripemd = "*"
secp256k1 = "*"
sha2 = "*"
