[package]
name = "csv_stream"
version = "0.1.0"
edition = "2021"
publish = false

[dependencies]
encoding_rs = "0.8"
napi = "2"
napi-derive = "2"
