[package]
name = "helix"
version = "0.1.0"
edition = "2021"
publish = false

[dependencies]
unicode-segmentation = "=1.13.3"
unicode-width = "=0.1.14"
unicode-general-category = "=0.6.0"
toml = "=0.5.11"
etcetera = "=0.4.0"
once_cell = "=1.21.4"
crossterm = "0.26"
which = "4"
