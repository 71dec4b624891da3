[package]
name = "labelpool"
version = "0.1.0"
edition = "2021"
publish = false

[dependencies]
ecow = "0.2"
