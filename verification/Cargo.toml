[package]
name = "oar_ocr_vl"
version = "0.1.0"
edition = "2021"
publish = false

[dependencies]
candle-core = "=0.9.2"
candle-nn = "=0.9.2"
half = "=2.7.1"
image = { version = "=0.25.10", default-features = false, features = ["png", "jpeg"] }
rayon = "=1.12.0"
serde = { version = "=1.0.229", features = ["derive"] }
serde_json = "=1.0.154"
tokenizers = { version = "=0.23.2", default-features = false, features = ["fancy-regex"] }
tracing = "=0.1.44"
