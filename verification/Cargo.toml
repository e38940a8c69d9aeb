[package]
name = "physics_rust"
version = "0.1.0"
edition = "2021"
publish = false

[dependencies]
zip = { version = "=2.6.1", default-features = false, features = ["deflate"] }
bevy_ecs = "=0.20.1"
bevy_input = { version = "=0.20.1", features = ["keyboard", "mouse"] }
