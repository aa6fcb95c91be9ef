[package]
name = "hearth_text"
version = "0.1.0"
edition = "2021"
publish = false

[dependencies]
unicode-segmentation = "=1.13.3"
linkify = "=0.10.0"
regex = "=1.13.1"
ropey = "=1.6.1"
pulldown-cmark = { version = "=0.13.6", default-features = false }
base64 = "=0.22.1"
merman = "*"
