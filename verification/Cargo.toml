[package]
name = "c4e5chess"
version = "0.1.0"
edition = "2021"
publish = false

[dependencies]
cozy-chess = "0.3"
log = "0.4"
wasm-bindgen = "0.2"
