[package]
name = "wy_music"
version = "0.1.0"
edition = "2021"
publish = false

[dependencies]
base64 = "*"
id3 = "*"
mp3-metadata = "*"
reqwest = { version = "*", default-features = false, features = ["blocking"] }
dirs = "*"
serde = { version = "*", features = ["derive"] }
