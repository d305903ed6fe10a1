[package]
name = "fsdiff"
version = "0.1.0"
edition = "2021"
publish = false

[dependencies]
docopt = "*"
serde_json = "*"
walkdir = "*"
xattr = "*"
