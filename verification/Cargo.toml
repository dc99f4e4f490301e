[package]
name = "perf_compare"
version = "0.1.0"
edition = "2021"
publish = false

[dependencies]
chrono = { version = "=0.4.45", default-features = false, features = ["clock", "std"] }
log = "0.4"
serde = { version = "=1.0.229", features = ["derive"] }
