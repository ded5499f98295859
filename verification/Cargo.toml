[package]
name = "wireframe"
version = "0.1.0"
edition = "2021"
publish = false

[dependencies]
bresenham = "0.1"
cgmath = "0.18"
crossterm = "0.27"
