[package]
name = "blockchain_rs"
version = "0.1.0"
edition = "2021"
publish = false

[dependencies]
base64 = "0.22"
k256 = "0.13"
num-bigint = "0.4"
rand = "0.8"
ripemd = "0.1"
sha2 = "0.10"
openssl = "0.10"
tokio = { version = "1", features = ["time", "rt", "macros"] }
actix = "0.13"
