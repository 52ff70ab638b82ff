[package]
name = "scene_codec"
version = "0.1.0"
edition = "2021"
publish = false

[dependencies]
anyhow = "1"
serde = "1"
bevy_property = "0.1"
bevy_scene = "0.1"
