[package]
name = "hotload_pipeline"
version = "0.1.0"
edition = "2021"
publish = false

[dependencies]
anyhow = "1"
glow = "0.11"
glutin = "0.29"
notify = "5"
