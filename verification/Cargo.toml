[package]
name = "redox_engine"
version = "0.1.0"
edition = "2021"
publish = false

[dependencies]
crossbeam-queue = "=0.3.14"
hashbrown = "=0.14.5"
smallvec = "=1.16.4"
parking_lot = "=0.12.5"
glam = "=0.27.0"
rayon = "=1.12.0"
bytemuck = { version = "=1.25.2", features = ["derive"] }
log = "=0.4.35"
image = { version = "=0.24.9", default-features = false, features = ["png"] }
tobj = "=4.0.5"
wgpu = { version = "0.20", default-features = false, features = ["wgsl"] }
