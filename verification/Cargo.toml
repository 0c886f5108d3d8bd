[package]
name = "solang_sema"
version = "0.1.0"
edition = "2021"
publish = false

[dependencies]
solang-parser = "0.3"
num-bigint = "0.4"
num-rational = "0.4"
num-traits = "0.2"
hex = "0.4"
base58 = "0.2"
blake2-rfc = "0.2"
indexmap = "2"
scopeguard = "1"
