[package]
name = "dek"
version = "0.1.0"
edition = "2021"
publish = false

[dependencies]
ahash = "0.8"
indexmap = "2"
malachite = "0.4"
miette = { version = "7", features = ["fancy"] }
thiserror = "1"
type-map = "0.5"
