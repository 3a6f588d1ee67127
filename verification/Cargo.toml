[package]
name = "shararam_profiler"
version = "0.1.0"
edition = "2021"
publish = false

[dependencies]
serde_json = "1"
flash-lso = "*"
dlmalloc = "*"
web-time = "1"
wasm-bindgen = "0.2"
js-sys = "0.3"
web-sys = { version = "0.3", features = ["Window", "Performance"] }
