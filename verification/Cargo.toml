[package]
name = "anime-cli"
version = "0.1.0"
edition = "2021"
publish = false

[dependencies]
getopts = "0.2"
pbr = "1"
term_size = "0.3"
