[package]
name = "unpin_choices"
version = "0.1.0"
edition = "2021"
publish = false

[dependencies]
bitvec = "1"
tap = "1"
pin-project = "1"
project-uninit = "*"
