[package]
name = "unlambda"
version = "0.1.0"
edition = "2021"
publish = false

[dependencies]
pico-args = { version = "=0.5.0", features = ["eq-separator"] }
