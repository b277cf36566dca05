[package]
name = "revo"
version = "0.1.0"
edition = "2021"
publish = false

[dependencies]
rand = "*"
rand_distr = "*"
rayon = "*"
rustc_apfloat = "*"
