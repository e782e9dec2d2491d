[package]
name = "piano_waterfall"
version = "0.1.0"
edition = "2021"
publish = false

[dependencies]
chrono = { version = "0.4", features = ["serde"] }
serde = { version = "1", features = ["derive"] }
serde_json = "1"
directories = "*"
rfd = "*"
bytemuck = { version = "1", features = ["derive"] }
wgpu = "*"
winit = "*"
