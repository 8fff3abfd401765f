[package]
name = "ds4"
version = "0.1.0"
edition = "2021"
publish = false

[dependencies]
anyhow = "1"
bytemuck = "1"
memmap2 = "0.9"
rayon = "1"
