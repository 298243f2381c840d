[package]
name = "scoped_futures"
version = "0.1.0"
edition = "2021"
publish = false

[dependencies]
critical-section = { version = "1", features = ["std"] }
