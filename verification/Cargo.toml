[package]
name = "photosort_core"
version = "0.1.0"
edition = "2021"
publish = false

[dependencies]
jpeg-decoder = { version = "=0.3.2", features = ["platform_independent"] }
console_error_panic_hook = "=0.1.7"

[dev-dependencies]
jpeg-encoder = "=0.7.1"
