[package]
name = "sketches"
version = "0.1.0"
edition = "2021"
publish = false

[dependencies]
piston = "*"
pistoncore-glutin_window = "*"
piston2d-opengl_graphics = "*"
piston2d-graphics = "*"
gl = "*"
image = { version = "*", default-features = false, features = ["jpeg", "png"] }
rand = "0.8"
noise = { version = "0.7", default-features = false }
rayon = "1"
tokio = { version = "1", features = ["rt-multi-thread", "macros"] }
ang = "*"
colors-transform = "*"
find_folder = "*"
lazy_static = "1"
