[package]
name = "dash_fp"
version = "0.1.0"
edition = "2021"
publish = false

[dependencies]
anyhow = "*"
ciborium = "*"
clap = "2"
colored = "*"
nalgebra = { version = "*", features = ["serde-serialize"] }
rayon = "*"
