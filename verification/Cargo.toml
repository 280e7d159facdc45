[package]
name = "harper_document"
version = "0.1.0"
edition = "2021"
publish = false

[dependencies]
harper-brill = { version = ">=0.50, <0.62", default-features = false }
