[package]
name = "quake_files"
version = "0.1.0"
edition = "2021"
publish = false

[dependencies]
byteorder = "1"
walkdir = "2"
image = { version = "0.25", default-features = false, features = ["png", "jpeg", "bmp"] }
