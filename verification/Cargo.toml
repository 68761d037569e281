[package]
name = "hybrid_image"
version = "0.1.0"
edition = "2021"
publish = false

[dependencies]
image = "0.23"
imageproc = "0.22"
fft2d = "0.1"
rustfft = "6"
rusttype = "0.9"
clap = { version = "3", features = ["derive"] }
