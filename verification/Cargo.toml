[package]
name = "ray_tracing"
version = "0.1.0"
edition = "2021"
publish = false

[dependencies]
anyhow = "1"
glam = "*"
load_image = "*"
memmap2 = "0.9"
rand = "0.8"
rayon = "1"
