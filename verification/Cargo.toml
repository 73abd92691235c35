[package]
name = "font_atlas"
version = "0.1.0"
edition = "2021"
publish = false

[dependencies]
anyhow = "1"
glam = { version = "*", features = ["serde"] }
image = { version = "*", default-features = false, features = ["png"] }
rmp-serde = "*"
serde = { version = "1", features = ["derive"] }
serde_json = "1"
