[package]
name = "repost_store"
version = "0.1.0"
edition = "2021"
publish = false

[dependencies]
sled = "0.34"
image = "0.23"
img_hash = "3.2"
