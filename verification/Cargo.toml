[package]
name = "raytracer"
version = "0.1.0"
edition = "2021"
publish = false

[dependencies]
nalgebra-glm = "0.19"
rand = "0.8"
png = "0.17"
