[package]
name = "navmesh"
version = "0.1.0"
edition = "2021"
publish = false

[dependencies]
either = "=1.19.0"
gl = "=0.14.0"
glutin = "=0.26.0"
