[package]
name = "wavegrid"
version = "0.1.0"
edition = "2021"
publish = false

[dependencies]
apng = "=0.3.4"
image = "=0.24.9"
plotters = "=0.3.7"
