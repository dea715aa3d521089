[package]
name = "tuix_reactive"
version = "0.1.0"
edition = "2021"
publish = false

[dependencies]
tuix = "=0.2.0"
