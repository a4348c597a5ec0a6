[package]
name = "isocitysim"
version = "0.1.0"
edition = "2021"
publish = false

[dependencies]
rand = "0.8"
noise = "0.9"
petgraph = "0.6"
smallvec = "1"
bytemuck = { version = "1", features = ["derive"] }
bevy = { version = "0.15", default-features = false, features = ["bevy_asset", "bevy_render", "bevy_pbr", "bevy_core_pipeline", "bevy_state"] }
