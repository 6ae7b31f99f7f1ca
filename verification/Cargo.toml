[package]
name = "risk_optima_core"
version = "0.1.0"
edition = "2021"
publish = false

[dependencies]
rand = "0.8"
rayon = "1"
csv = "1"
serde = { version = "1", features = ["derive"] }
pyo3 = { version = "0.22", features = ["extension-module"] }
