[package]
name = "replay_renderer"
version = "0.1.0"
edition = "2021"
publish = false

[dependencies]
ab_glyph = "0.2.32"
bytemuck = { version = "1.25.2", features = ["derive"] }
image = { version = "0.25.10", default-features = false, features = ["png", "gif", "jpeg"] }
serde_json = "1.0.154"
wgpu = "=26.0.1"
woff2-patched = "*"
