[package]
name = "tournament_rs"
version = "0.1.0"
edition = "2021"
publish = false

[dependencies]
anyhow = "1"
ndarray = "0.15"
spmc = "0.3"
threadpool = "1"
