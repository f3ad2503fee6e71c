[package]
name = "rust_way_of_life"
version = "0.1.0"
edition = "2021"
publish = false

[dependencies]
rand_xoshiro = "0.6"
