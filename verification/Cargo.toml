[package]
name = "predictor"
version = "0.1.0"
edition = "2021"
publish = false

[dependencies]
chrono = "*"
lru-cache = "*"
rand = "*"
