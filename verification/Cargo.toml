[package]
name = "ccidkit"
version = "0.1.0"
edition = "2021"
publish = false

[dependencies]
nusb = "0.2"
pcsc = "2"
