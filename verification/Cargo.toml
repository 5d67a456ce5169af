[package]
name = "vibe_dither"
version = "0.1.0"
edition = "2021"
publish = false

[dependencies]
anyhow = "1"
bytemuck = { version = "1", features = ["derive"] }
env_logger = { version = "0.11", default-features = false }
image = { version = "0.24", default-features = false, features = ["png", "jpeg", "webp"] }
wgpu = { version = "0.19", default-features = false, features = ["wgsl"] }
