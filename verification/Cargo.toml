[package]
name = "sbrga"
version = "0.1.0"
edition = "2021"
publish = false

[dependencies]
anyhow = "1"
c_str_macro = "*"
chrono = "0.4"
delta_e = "*"
gl = "*"
image = { version = "*", default-features = false, features = ["png", "jpeg"] }
lerp = "*"
nalgebra = "*"
rand = "0.8"
rand_distr = "0.4"
rayon = "1"
sdl2 = "*"
structopt = "0.3"
thiserror = "1"
