[package]
name = "fft_anything"
version = "0.1.0"
edition = "2021"
publish = false

[dependencies]
clap = "*"
ctrlc = "*"
hound = "*"
png = "*"
rustfft = "*"
sdl2 = "*"
