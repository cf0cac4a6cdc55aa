[package]
name = "chainscape"
version = "0.1.0"
edition = "2021"
publish = false

[dependencies]
rand = { version = "0.9", features = ["small_rng"] }
bevy = { version = "0.16", default-features = false, features = ["std", "async_executor", "bevy_state", "bevy_color"] }
avian2d = { version = "0.3", default-features = false, features = ["2d", "f32", "parry-f32", "default-collider"] }
fastnoise-lite = "1"
