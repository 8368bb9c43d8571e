[package]
name = "scene_core"
version = "0.1.0"
edition = "2021"
publish = false

[dependencies]
uuid = { version = "1", features = ["v4"] }
serde = { version = "1", features = ["derive"] }
anyhow = "1"
bytemuck = { version = "1", features = ["derive"] }
cgmath = { version = "0.18", features = ["serde"] }
image = { version = "0.24", default-features = false, features = ["png"] }
imgui = { version = "0.11", features = ["docking"] }
imgui-wgpu = "0.23"
imgui-winit-support = { version = "0.11", default-features = false }
pollster = "0.3"
tobj = { version = "3.2", features = ["async"] }
wgpu = { version = "0.16", default-features = false, features = ["wgsl"] }
winit = { version = "0.27", default-features = false, features = ["x11"] }
