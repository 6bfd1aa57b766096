[package]
name = "ecfft"
version = "0.1.0"
edition = "2021"
publish = false

[dependencies]
ff = "0.12"
group = "0.12"
pasta_curves = "0.4"
rayon = "1"
pairing = "0.22"
halo2curves = "*"
