[package]
name = "gravity"
version = "0.1.0"
edition = "2021"
publish = false

[dependencies]
rand = "0.8"
rayon = "1"
nalgebra = "0.33"
chrono = "0.4"
