[package]
name = "minitokio"
version = "0.1.0"
edition = "2021"
publish = false

[dependencies]
crossbeam = "0.8"
futures = "0.3"

[dev-dependencies]
rand = { version = "0.8", features = ["small_rng"] }
