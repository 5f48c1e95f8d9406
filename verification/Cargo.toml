[package]
name = "planet_mesh"
version = "0.1.0"
edition = "2021"
publish = false

[dependencies]
amethyst = { version = "*", default-features = false }
nalgebra = "*"
