[package]
name = "dense_slotmap"
version = "0.1.0"
edition = "2021"

[dependencies]
glam = "*"
rand = "0.8"
