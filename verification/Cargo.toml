[package]
name = "spaceship_menu"
version = "0.1.0"
edition = "2021"
publish = false

[dependencies]
rand = "0.7"
serde_json = "1"
gl = "0.11"
glutin = "0.19"
glyph_brush = "0.4"
spin_sleep = "0.3"
env_logger = "0.6"
reqwest = { version = "0.9", default-features = false }
escposify = "*"
