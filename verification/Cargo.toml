[package]
name = "xbrdf"
version = "0.1.0"
edition = "2021"
publish = false

[dependencies]
anyhow = "1"
blake3 = "1"
bytemuck = { version = "1", features = ["derive"] }
clap = { version = "4", features = ["derive"] }
exr = { version = "1", default-features = false }
fbx = "*"
pollster = "0.3"
serde = { version = "1", features = ["derive"] }
thiserror = "1"
tobj = { version = "4", default-features = false }
toml = "0.8"
wgpu = { version = "0.20", default-features = false, features = ["wgsl"] }
