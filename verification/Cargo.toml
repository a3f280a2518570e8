[package]
name = "falldown"
version = "0.1.0"
edition = "2021"
publish = false

[dependencies]
hibitset = { version = "0.6", default-features = false }
rand = "0.8"
