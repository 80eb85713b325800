[package]
name = "textfield"
version = "0.1.0"
edition = "2021"
publish = false

[dependencies]
sdl2 = "0.25.0"
sdl2_ttf = "0.25.1"
