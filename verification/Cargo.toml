[package]
name = "raytracing_lib"
version = "0.1.0"
edition = "2021"
publish = false

[dependencies]
bytes = "=1.12.1"
crossbeam-channel = "=0.5.17"
crossbeam-utils = "=0.8.23"
indicatif = "0.17"
nalgebra-glm = "=0.21.0"
ndarray = "=0.15.6"
rand = "=0.8.8"
serde = { version = "=1.0.229", features = ["derive"] }
threadpool = "=1.8.1"
