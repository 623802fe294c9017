[package]
name = "sunkey"
version = "0.1.0"
edition = "2021"
publish = false

[dependencies]
rand_core = "0.6"
rand_xoshiro = "0.6"
macroquad = "0.4"
