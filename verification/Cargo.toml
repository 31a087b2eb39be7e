[package]
name = "creek"
version = "0.1.0"
edition = "2021"
publish = false

[dev-dependencies]
fnv = "1.0"
