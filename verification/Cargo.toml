[package]
name = "asteroids"
version = "0.1.0"
edition = "2021"
publish = false

[dependencies]
once_cell = "1"
rand = "0.8"
sdl2 = { version = "*", features = ["image", "mixer", "ttf"] }
specs = "*"
vector2d = "*"
