[package]
name = "dendrite"
version = "0.1.0"
edition = "2021"
publish = false

[dependencies]
bitvec = "1"
itertools = "0.12"
rand = "0.8"
