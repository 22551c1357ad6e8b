[package]
name = "warehouse_sim"
version = "0.1.0"
edition = "2021"
publish = false

[dependencies]
rustc-hash = "=2.1.3"
bevy = { version = "=0.17.3", default-features = false, features = ["std", "bevy_asset", "bevy_color", "bevy_core_pipeline", "bevy_gizmos", "bevy_log", "bevy_pbr", "bevy_render", "bevy_window", "bevy_winit", "x11"] }
bevy_egui = { version = "=0.37.1", default-features = false }
