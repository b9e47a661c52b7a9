[package]
name = "ferrum_core"
version = "0.1.0"
edition = "2021"
publish = false

[dependencies]
rand = "0.8"
rand_chacha = "0.3"
arrow = { version = "*", default-features = false }
pyo3 = "*"
serde = { version = "1", features = ["derive"] }
serde_json = "1"
faer = "*"
