[package]
name = "number_pain"
version = "0.1.0"
edition = "2021"
publish = false

[dependencies]
iced = { version = "0.13", default-features = false, features = ["tiny-skia", "tokio"] }
rand = "=0.9.5"
wasm-timer = "=0.2.5"
