[package]
name = "palettify"
version = "0.1.0"
edition = "2021"
publish = false

[dependencies]
anyhow = "1"
clap = { version = "4", features = ["derive"] }
fast_image_resize = { version = "*", features = ["image"] }
image = { version = "0.25", default-features = false, features = ["png", "jpeg", "gif", "bmp", "tiff", "webp", "rayon"] }
nalgebra = "*"
rayon = "1"
turbojpeg = { version = "1", features = ["image"] }
