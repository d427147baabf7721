[package]
name = "text_mesh"
version = "0.1.0"
edition = "2021"
publish = false

[dependencies]
fontmesh = "=0.7.0"
anyhow = "=1.0.104"
bevy = { version = "0.12", default-features = false, features = ["bevy_asset"] }
