[package]
name = "worley_field"
version = "0.1.0"
edition = "2021"
publish = false

[dependencies]
glam = "*"
image = "*"
minifb = "*"
rand = "*"
rand_distr = "*"
rayon = "*"
