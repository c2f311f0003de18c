[package]
name = "tv_renamer"
version = "0.1.0"
edition = "2021"
publish = false

[dependencies]
tvdb = "*"
