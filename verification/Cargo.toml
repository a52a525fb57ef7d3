[package]
name = "kyute"
version = "0.1.0"
edition = "2021"
publish = false

[dependencies]
slotmap = "1"
unicode-segmentation = "1"
keyboard-types = "0.7"
