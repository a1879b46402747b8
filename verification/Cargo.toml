[package]
name = "skypass"
version = "0.1.0"
edition = "2021"
publish = false

[dependencies]
sgp4 = "*"
chrono = "0.4"
nalgebra = "*"

[dev-dependencies]
