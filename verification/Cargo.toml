[package]
name = "ccc"
version = "0.1.0"
edition = "2021"
publish = false

[dependencies]
object = { version = "0.36", features = ["write"] }
sha2 = "0.10"
signal-hook = "0.3"
