[package]
name = "bottom"
version = "0.1.0"
edition = "2021"
publish = false

[dependencies]
anyhow = "1"
core-foundation = "0.10"
mach2 = "0.4"
ratatui = "0.29"
