[package]
name = "deadaim"
version = "0.1.0"
edition = "2021"
publish = false

[dependencies]
console_error_panic_hook = "0.1"
rand = "0.8"
wasm-bindgen = "0.2"
