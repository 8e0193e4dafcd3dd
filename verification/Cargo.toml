[package]
name = "opensim_viewer"
version = "0.1.0"
edition = "2021"
publish = false

[dependencies]
crossbeam-channel = "=0.5.17"
glium = "=0.36.0"
nalgebra = "=0.35.0"
parking_lot = "=0.13.0"
serde = { version = "=1.0.229", features = ["derive"] }
serde_json = "=1.0.154"
tokio-core = "0.1.18"
toml = "=1.1.8"
