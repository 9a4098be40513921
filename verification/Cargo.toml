[package]
name = "filter_scheme"
version = "0.1.0"
edition = "2021"
publish = false

[dependencies]
fnv = "1"
indexmap = "2"
