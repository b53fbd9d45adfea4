[package]
name = "garb"
version = "0.1.0"
edition = "2021"
publish = false

[dependencies]
archmage = "=0.9.30"
bytemuck = { version = "=1.25.2", features = ["extern_crate_alloc"] }
imgref = "=1.12.3"
rgb = "=0.8.53"
