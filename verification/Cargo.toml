[package]
name = "tuner"
version = "0.1.0"
edition = "2021"
publish = false

[dependencies]
cpal = "0.15"
wasm-bindgen = "0.2"
