[package]
name = "imgexpr"
version = "0.1.0"
edition = "2021"
publish = false

[dependencies]
rand = "0.8"
anyhow = "1"
clap = { version = "4", features = ["derive"] }
gif = "0.13"
image = "0.24"
