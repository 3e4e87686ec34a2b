[package]
name = "mere"
version = "0.1.0"
edition = "2021"
publish = false

[dependencies]
anyhow = "1"
blake3 = "1"
bytemuck = { version = "1", features = ["derive"] }
glam = "*"
half = "2"
meshopt = "*"
metis = "*"
range-alloc = "*"
slotmap = "1"
