[package]
name = "ycmark"
version = "0.1.0"
edition = "2021"
publish = false

[dependencies]
clap = { version = "=4.6.7", features = ["derive"] }
comrak = { version = "=0.44.0", default-features = false }
yaml-rust2 = "=0.13.0"
