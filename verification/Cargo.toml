[package]
name = "point_batches"
version = "0.1.0"
edition = "2021"
publish = false

[dependencies]
cgmath = "0.17"
collision = "0.20"
crossbeam = "0.8"
fnv = "1"
