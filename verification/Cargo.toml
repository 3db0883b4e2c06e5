[package]
name = "godot_vim"
version = "0.1.0"
edition = "2021"
publish = false

[dependencies]
unicode-segmentation = "1"
log = "0.4"
godot = "*"
