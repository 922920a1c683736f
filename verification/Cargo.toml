[package]
name = "crosschain_nameservice"
version = "0.1.0"
edition = "2021"
publish = false

[dependencies]
hex = "=0.4.3"
cosmwasm-std = "=1.5.11"
cosmwasm-schema = "=1.5.11"
cw-storage-plus = "=1.2.0"
cw-utils = "=1.0.3"

[dev-dependencies]
router-wasm-bindings = { version = "=0.2.9", features = ["ethabi"] }
