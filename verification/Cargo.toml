[package]
name = "video_signal"
version = "0.1.0"
edition = "2021"
publish = false

[dependencies]
bit-vec = "*"
crc = "3"
bincode = "1.3"
serde = { version = "1", features = ["derive"] }
image = { version = "*", default-features = false, features = ["png"] }
ffmpeg-next = "*"
