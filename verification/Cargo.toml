[package]
name = "image_to_mesh"
version = "0.1.0"
edition = "2021"
publish = false

[dependencies]
image = "*"
sdfer = "*"
obj-exporter = "*"
rgeometry = "*"
