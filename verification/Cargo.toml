[package]
name = "minecraft"
version = "0.1.0"
edition = "2021"
publish = false

[dependencies]
rand = "0.9"
serde = { version = "1", features = ["derive"] }
serde_json = "1"
serde_repr = "0.1"
noise = "0.9"
futures-util = "0.3"
mimalloc = "0.1"
bevy = { version = "0.16", default-features = false, features = ["std", "bevy_render", "bevy_pbr", "bevy_ui", "bevy_text", "bevy_core_pipeline", "bevy_asset", "bevy_state", "bevy_sprite", "bevy_window", "png"] }
