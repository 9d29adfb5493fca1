[package]
name = "checksmith"
version = "0.1.0"
edition = "2021"
publish = false

[dependencies]
rand = "0.8"
shakmaty = "0.27"
shakmaty-syzygy = "0.25"
