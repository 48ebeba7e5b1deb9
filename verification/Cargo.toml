[package]
name = "aniy"
version = "0.1.0"
edition = "2021"
publish = false

[dependencies]
indicatif = { version = "*", features = ["rayon"] }
log = "*"
mathjax = "*"
ndarray = "*"
open = "*"
rayon = "*"
resvg = "0.40"
svg = "*"
video-rs = { version = "*", features = ["ndarray"] }
