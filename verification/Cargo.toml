[package]
name = "uniblake"
version = "0.1.0"
edition = "2021"
publish = false

[dev-dependencies]
blake2b_simd = "1"
