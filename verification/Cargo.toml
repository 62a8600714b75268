[package]
name = "aubrey"
version = "0.1.0"
edition = "2021"
publish = false

[dependencies]
ab_glyph = "0.2"
bytemuck = { version = "1", features = ["derive"] }
pollster = "0.3"
softbuffer = "0.4"
wgpu = "0.20"
winit = "0.30"
