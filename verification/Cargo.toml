[package]
name = "tech_paws_graphics"
version = "0.1.0"
edition = "2021"
publish = false

[dependencies]
bytemuck = { version = "*", features = ["derive"] }
glam = "*"
lattice = "*"
log = "*"
lyon = "*"
slotmap = "*"
tiny-skia-path = "*"
usvg = "*"
wgpu = "*"
