[package]
name = "cellular_automata"
version = "0.1.0"
edition = "2021"
publish = false

[dependencies]
bytemuck = "1"
bevy = { version = "0.9", default-features = false, features = ["bevy_asset", "bevy_winit", "render", "x11"] }
bevy_egui = { version = "0.17", default-features = false, features = ["default_fonts"] }
