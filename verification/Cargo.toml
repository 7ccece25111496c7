[package]
name = "raytrace"
version = "0.1.0"
edition = "2021"
publish = false

[dependencies]
rand = "*"
clap = { version = "*", features = ["derive"] }
indicatif = { version = "*", features = ["rayon"] }
itertools = "*"
rayon = "*"
