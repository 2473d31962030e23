[package]
name = "immixcons"
version = "0.1.0"
edition = "2021"
publish = false

[dependencies]
vec_map = "0.8"
libc = "0.2"
once_cell = "1"
parking_lot = "*"
