[package]
name = "maskedlm"
version = "0.1.0"
edition = "2021"
publish = false

[dependencies]
tokenizers = "*"
tract-onnx = "*"
wasm-bindgen = "*"
console_error_panic_hook = "*"
