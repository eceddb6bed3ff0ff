[package]
name = "docscan"
version = "0.1.0"
edition = "2021"
publish = false

[dependencies]
wasm-bindgen = "0.2"
web-sys = { version = "0.3", features = ["ImageData"] }
js-sys = "0.3"
console_error_panic_hook = "0.1"
