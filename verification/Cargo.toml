[package]
name = "mandlebrot"
version = "0.1.0"
edition = "2021"
publish = false

[dependencies]
rayon = "1"
clap = { version = "4", features = ["derive"] }
console = "0.15"
image = { version = "0.25", default-features = false, features = ["png"] }
