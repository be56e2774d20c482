[package]
name = "raytrace_core"
version = "0.1.0"
edition = "2021"
publish = false

[dependencies]
rand = "0.9"
rayon = "1"
image = { version = "0.25", default-features = false, features = ["png", "jpeg"] }
