[package]
name = "ilp_stream"
version = "0.1.0"
edition = "2021"
publish = false

[dependencies]
ring = "=0.17.14"

[dev-dependencies]
base64 = "=0.23.1"
