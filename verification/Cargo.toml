[package]
name = "stu_minecraft"
version = "0.1.0"
edition = "2021"
publish = false

[dependencies]
serde = { version = "=1.0.229", features = ["derive"] }
bincode = "=1.3.3"
noise = "=0.9.0"
bevy = { version = "=0.18.1", default-features = false, features = ["std", "multi_threaded", "bevy_window", "bevy_render", "bevy_core_pipeline", "bevy_pbr", "bevy_ui", "bevy_text", "bevy_scene", "bevy_post_process", "default_font"] }
