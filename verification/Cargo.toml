[package]
name = "game_network"
version = "0.1.0"
edition = "2021"
publish = false

[dependencies]
bidir-map = "*"
bincode = "1"
log = "0.4"
serde = { version = "1", features = ["derive"] }
spmc = "*"
