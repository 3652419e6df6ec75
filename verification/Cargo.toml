[package]
name = "anchor"
version = "0.1.0"
edition = "2021"
publish = false

[dependencies]
flate2 = "1"
syn = { version = "1", features = ["full", "visit", "extra-traits"] }
proc-macro2 = "1"
quote = "1"
