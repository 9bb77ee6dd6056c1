[package]
name = "minesweeper"
version = "0.1.0"
edition = "2021"
publish = false

[dependencies]
rand = "0.8"
thiserror = "1"
bevy = { version = "0.13", default-features = false }
