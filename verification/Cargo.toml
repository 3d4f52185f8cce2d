[package]
name = "fastcat"
version = "1.0.0"
edition = "2021"
publish = false

[dependencies]
proc-macro2 = "1"
proc-macro-crate = "3"
quote = "1"
syn = { version = "2", features = ["full"] }
