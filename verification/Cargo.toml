[package]
name = "tmux_thumbs"
version = "0.1.0"
edition = "2021"
publish = false

[dependencies]
base64 = "0.22"
clap = "4"
termion = "4"
unicode-width = "0.1"
