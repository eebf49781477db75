[package]
name = "physics_bridge"
version = "0.1.0"
edition = "2021"
publish = false

[dependencies]
nalgebra = "=0.29.0"
ncollide3d = "=0.32.0"
nphysics3d = "=0.24.0"
noise = "=0.6.0"
serde = { version = "=1.0.229", features = ["derive"] }
winit = "=0.19.5"
