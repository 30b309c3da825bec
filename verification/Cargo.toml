[package]
name = "rhythm_chase"
version = "0.1.0"
edition = "2021"
publish = false

[dependencies]
array2d = "*"
serde = { version = "*", features = ["derive"] }
serde_json = "*"
raylib = "*"
mki = "*"
