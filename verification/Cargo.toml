[package]
name = "gateway"
version = "0.1.0"
edition = "2021"
publish = false

[dependencies]
tokio = { version = "1", features = ["net", "rt-multi-thread", "macros"] }
reqwest = { version = "0.12", default-features = false }
