[package]
name = "specan"
version = "0.1.0"
edition = "2021"
publish = false

[dependencies]
clap = { version = "*", features = ["derive"] }
const_format = "*"
realfft = "*"
sdl2 = "*"
