[package]
name = "pathgame"
version = "0.1.0"
edition = "2021"
publish = false

[dependencies]
fnv = "1"
itertools = "*"
serde = { version = "1", features = ["derive"] }
