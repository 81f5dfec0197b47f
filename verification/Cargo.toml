[package]
name = "uv_sphere"
version = "0.1.0"
edition = "2021"
publish = false

[dependencies]
rayon = "*"
libm = "*"
bytemuck = "*"
rustc_apfloat = "*"
