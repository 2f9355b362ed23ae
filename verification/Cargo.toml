[package]
name = "lifec"
version = "0.1.0"
edition = "2021"
publish = false

[dependencies]
tokio = { version = "1", features = ["sync"] }
rand = "0.8"
specs = { version = "0.20", default-features = false }
