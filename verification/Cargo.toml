[package]
name = "cvar_flatten"
version = "0.1.0"
edition = "2021"
publish = false

[dependencies]
ark-bn254 = "0.3"
ark-ec = "0.3"
ark-ff = "0.3"
js-sys = "0.3"
rand = "0.8"
rmp-serde = "1"
wasm-bindgen = "0.2"
