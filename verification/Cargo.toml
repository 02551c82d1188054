[package]
name = "twenty_forty_eight"
version = "0.1.0"
edition = "2021"
publish = false

[dependencies]
bevy = { version = "0.12", default-features = false }
minimax = "0.5"
rand = "0.8"
