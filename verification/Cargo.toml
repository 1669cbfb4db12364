[package]
name = "planet_core"
version = "0.1.0"
edition = "2021"
publish = false

[dependencies]
rand = "*"
rand_pcg = "*"
rand_distr = "*"
noise = "*"
