[package]
name = "text_coords"
version = "0.1.0"
edition = "2021"
publish = false

[dependencies]
ropey = { version = "1.6", default-features = false, features = ["cr_lines"] }
tree-sitter = "0.20"
unicode-segmentation = "1"
unicode-width = "0.1"
