[package]
name = "flayout-wgpu"
version = "0.1.0"
edition = "2021"
publish = false

[dependencies]
bytemuck = { version = "1", features = ["derive"] }
directories = "6"
egui = { version = "0.33", default-features = false, features = ["default_fonts"] }
egui-wgpu = { version = "0.33", default-features = false, features = ["winit", "x11"] }
egui-winit = { version = "0.33", default-features = false, features = ["x11"] }
env_logger = { version = "0.11", default-features = false }
glam = "0.30"
laykit = "*"
pollster = "0.4"
rfd = { version = "0.15", default-features = false, features = ["xdg-portal", "async-std"] }
serde = { version = "1", features = ["derive"] }
serde_json = "1"
thiserror = "2"
wgpu = { version = "27", default-features = false, features = ["wgsl", "vulkan", "metal", "dx12"] }
winit = { version = "0.30", default-features = false, features = ["x11", "rwh_06"] }
