[package]
name = "babiniku"
version = "0.1.0"
edition = "2021"
publish = false

[dependencies]
anyhow = "1"
candle-core = "*"
candle-nn = "*"
hf-hub = { version = "*", default-features = false, features = ["ureq", "rustls-tls"] }
rustfft = "6"
