[package]
name = "maat_graphics"
version = "0.1.0"
edition = "2021"
publish = false

[dependencies]
image = "0.24"
gltf = "1"
glam = "0.24"
