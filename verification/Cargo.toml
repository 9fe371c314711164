[package]
name = "ski_grid"
version = "0.1.0"
edition = "2021"
publish = false

[dependencies]
bevy = { version = "0.16", default-features = false, features = ["std", "bevy_log", "bevy_pbr", "bevy_picking"] }
hexx = "=0.21.0"
noise = "=0.9.0"
rand = "=0.9.5"
