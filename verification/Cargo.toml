[package]
name = "risk_service"
version = "0.1.0"
edition = "2021"
publish = false

[dependencies]
chrono = { version = "0.4", default-features = false, features = ["clock", "std"] }
nalgebra = "0.32"
prost = "0.12"
prost-types = "0.12"
rand = "0.8"
rand_distr = "0.4"
tokio = { version = "1", features = ["macros", "rt-multi-thread"] }
tonic = "0.11"
