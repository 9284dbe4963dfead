[package]
name = "liminal_maze"
version = "0.1.0"
edition = "2021"
publish = false

[dependencies]
font8x8 = "*"
image = { version = "*", default-features = false, features = ["png", "jpeg"] }
minifb = "*"
nalgebra-glm = "*"
