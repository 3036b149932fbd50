[package]
name = "nxvim_core"
version = "0.1.0"
edition = "2021"
publish = false

[dependencies]
anyhow = "1"
ropey = "2.0.0-alpha.1"
unicode-segmentation = "1"
unicode-width = "0.2"
