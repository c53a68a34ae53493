[package]
name = "raydium"
version = "0.1.0"
edition = "2021"
publish = false

[dependencies]
anyhow = "=1.0.104"
image = "=0.25.10"
nalgebra-glm = "=0.21.0"
sdl2 = { version = "=0.38.0", features = ["unsafe_textures"] }
