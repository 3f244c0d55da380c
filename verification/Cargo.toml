[package]
name = "diffusion_grid"
version = "0.1.0"
edition = "2021"
publish = false

[dependencies]
bevy = { version = "=0.6.1", default-features = false, features = ["render", "bevy_winit", "png", "x11"] }
bevy_ecs_tilemap = { version = "=0.5.0", default-features = false }
darling = "=0.13.4"
