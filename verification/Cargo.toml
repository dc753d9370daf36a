[package]
name = "undither"
version = "0.1.0"
edition = "2021"
publish = false

[dependencies]
rgb = "*"
vpsearch = "*"
imgref = "*"
loop9 = "*"
lodepng = "*"
