[package]
name = "burnmark"
version = "0.1.0"
edition = "2021"
publish = false

[dependencies]
arbitrary = { version = "=1.5.0", features = ["derive"] }
burn = { version = "=0.22.0-pre.3", default-features = false, features = ["ndarray", "autodiff"] }
candle-core = { version = "=0.11.1", default-features = false }
candle-nn = { version = "=0.11.1", default-features = false }
tch = { version = "*", default-features = false }
