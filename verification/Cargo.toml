[package]
name = "tile_merge"
version = "0.1.0"
edition = "2021"
publish = false

[dependencies]
rand = "0.8"
serde_json = "*"
cursive = { version = "*", default-features = false }
fern = "*"
chrono = "*"
log = "*"
