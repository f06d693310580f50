[package]
name = "voi_synth"
version = "0.1.0"
edition = "2021"
publish = false

[dependencies]
failure = "0.1"
sdl2-sys = "*"
