[package]
name = "orbit_engine"
version = "0.1.0"
edition = "2021"
publish = false

[dependencies]
regex = "1"
egui = "0.15"
epi = "0.15"
