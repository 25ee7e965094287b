[package]
name = "videodocparser"
version = "0.1.0"
edition = "2021"
publish = false

[dependencies]
anyhow = "*"
clap = { version = "*", features = ["derive"] }
env_logger = "*"
ffmpeg-next = "*"
image = "=0.24.9"
imagehash = "=0.3.0"
indicatif = "*"
log = "*"
pdf-writer = "*"
rayon = "*"
serde = { version = "*", features = ["derive"] }
serde_json = "*"
tesseract-rs = "*"
