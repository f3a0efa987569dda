[package]
name = "polars"
version = "0.1.0"
edition = "2021"
publish = false

[dependencies]
ahash = "0.8"
arrow2 = { version = "0.17", default-features = false }
num-traits = "0.2"
thiserror = "1"
