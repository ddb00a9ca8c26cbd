[package]
name = "bevy_crossterm"
version = "0.1.0"
edition = "2021"
publish = false

[dependencies]
anyhow = "=1.0.104"
async-trait = "=0.1.42"
bevy = { version = "=0.5.0", default-features = false }
broccoli = "=6.3.0"
crossterm = { version = "=0.19.0", features = ["serde"] }
ron = "=0.6.6"
serde = { version = "=1.0.229", features = ["derive"] }
unicode-segmentation = "=1.13.3"
