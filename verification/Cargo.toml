[package]
name = "perlinrs"
version = "0.1.0"
edition = "2021"
publish = false

[dependencies]
ndarray = "0.16"
js-sys = "0.3"
wasm-bindgen = "0.2"
