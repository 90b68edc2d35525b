[package]
name = "rustc_worker"
version = "0.1.0"
edition = "2021"

[dependencies]
fnv = "1"

[dev-dependencies]
protobuf = "2"
prost = "*"
