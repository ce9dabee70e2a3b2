[package]
name = "zudb_js"
version = "0.1.0"
edition = "2021"
publish = false

[dependencies]
napi = { version = "=3.16.1", features = ["napi9"] }
napi-derive = "=3.7.0"
