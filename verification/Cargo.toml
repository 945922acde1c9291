[package]
name = "robot_scene"
version = "0.1.0"
edition = "2021"
publish = false

[dependencies]
bevy = { version = "=0.10.1", default-features = false, features = ["bevy_asset", "bevy_core_pipeline", "bevy_pbr", "bevy_render", "bevy_winit", "x11", "jpeg"] }
bevy_rapier3d = "=0.21.0"
bevy_stl = "0.8"
color-eyre = "=0.6.5"
nalgebra = "=0.32.6"
urdf-rs = "=0.7.3"
