[package]
name = "gguf_loader"
version = "0.1.0"
edition = "2021"
publish = false

[dependencies]
tokenizers = "=0.22.2"
