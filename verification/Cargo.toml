[package]
name = "frostify_gfx"
version = "0.1.0"
edition = "2021"
publish = false

[dependencies]
arboard = { version = "3", default-features = false }
bytemuck = { version = "1", features = ["derive"] }
cosmic-text = "*"
etagere = "0.2"
log = "0.4"
png = "*"
pollster = "0.4"
wgpu = "*"
winit = "0.30"
