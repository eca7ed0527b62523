[package]
name = "wiremann"
version = "0.1.0"
edition = "2021"
publish = false

[dependencies]
blake3 = "*"
uuid = { version = "*", features = ["v4"] }
rand = "*"
image = { version = "*", default-features = false, features = ["png", "jpeg"] }
num_cpus = "*"
crossbeam-channel = "*"
lofty = "*"
walkdir = "*"
dirs = "*"
rayon = "*"
rodio = "*"
