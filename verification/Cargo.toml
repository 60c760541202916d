[package]
name = "napi_helpers"
version = "0.1.0"
edition = "2021"
publish = false

[dependencies]
failure = "0.1"
napi-sys = "*"
