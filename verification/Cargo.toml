[package]
name = "rendering"
version = "0.1.0"
edition = "2021"
publish = false

[dependencies]
fastrand = "*"
rayon = "*"
image = { version = "*", default-features = false, features = ["png", "jpeg"] }
