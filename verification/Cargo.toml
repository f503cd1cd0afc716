[package]
name = "env_worker"
version = "0.1.0"
edition = "2021"
publish = false

[dependencies]
linked-hash-map = "*"
pyany-serde = "*"
pyo3 = "*"
raw_sync = "*"
shared_memory = "*"
