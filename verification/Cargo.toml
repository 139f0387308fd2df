[package]
name = "voxel_world"
version = "0.1.0"
edition = "2021"
publish = false

[dependencies]
bevy = { version = "0.16", default-features = false, features = ["std", "multi_threaded", "bevy_asset", "bevy_color", "bevy_core_pipeline", "bevy_pbr", "bevy_render", "bevy_state", "bevy_window"] }
bevy_asset_loader = "0.23"
noiz = "0.2"
serde = { version = "1", features = ["derive"] }
serde_json = "1"
serde_with = "3"
