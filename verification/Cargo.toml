[package]
name = "photo_composer"
version = "0.1.0"
edition = "2021"
publish = false

[dependencies]
image = { version = "0.25", default-features = false, features = ["jpeg", "png", "bmp", "gif", "tiff"] }
zip = { version = "*", default-features = false, features = ["deflate"] }
walkdir = "2"
serde = { version = "1", features = ["derive"] }
serde_json = "1"
