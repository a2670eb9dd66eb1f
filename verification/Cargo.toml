[package]
name = "render_graph"
version = "0.1.0"
edition = "2021"
publish = false

[dependencies]
anyhow = "=1.0.104"
ash = "=0.29.0"
byte-slice-cast = "=1.2.3"
glam = "=0.9.5"
lazy_static = "=1.5.1"
log = "=0.4.34"
rspirv-reflect = "=0.9.0"
turbosloth = "=0.2.0"
vk-mem = "=0.1.9"
vk-sync = "=0.1.6"
winit = "=0.19.5"
