[package]
name = "content_aware_resize"
version = "0.1.0"
edition = "2021"
publish = false

[dependencies]
image = { version = "*", default-features = false, features = ["jpeg", "png"] }
imageproc = { version = "*", default-features = false }
sdl2 = "*"
