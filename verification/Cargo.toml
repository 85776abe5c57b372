[package]
name = "feed"
version = "0.1.0"
edition = "2021"
publish = false

[dependencies]
lazy_static = "1"
rand = "0.6"
serde = "1"
serde_derive = "1"
serde_json = "1"
