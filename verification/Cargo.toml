[package]
name = "alkabi"
version = "0.1.0"
edition = "2021"
publish = false

[dependencies]
serde_json = { version = "1", features = ["preserve_order", "arbitrary_precision"] }
wasmi = "0.37"
wasmparser = "0.221"
anyhow = "1"
borsh = "1"
bitcoin = "0.32"
syn = { version = "2", features = ["full"] }
quote = "1"
proc-macro2 = "1"
