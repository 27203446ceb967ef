[package]
name = "ecs_x"
version = "0.1.0"
edition = "2021"
publish = false

[dependencies]
nohash-hasher = "0.2"
rand = "0.8"
winit = "0.30"
