[package]
name = "swamp_render"
version = "0.1.0"
edition = "2021"
publish = false

[dependencies]
async-trait = "0.1"
bytemuck = "1"
image = { version = "0.25", default-features = false, features = ["png"] }
int_math = "*"
log = "0.4"
pollster = "0.3"
swamp-window = "*"
wgpu = "23"
winit = "0.30"
