[package]
name = "bench_harness"
version = "0.1.0"
edition = "2021"
publish = false

[dependencies]
csv = "*"
ndarray = "*"
ndarray-npy = "*"
rayon = "*"
serde = { version = "*", features = ["derive"] }
serde_yaml = "*"
