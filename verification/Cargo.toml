[package]
name = "ty_infer"
version = "0.1.0"
edition = "2021"
publish = false

[dependencies]
ena = "0.11"
rustc-hash = "1.0"
