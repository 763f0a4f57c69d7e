[package]
name = "rawdb"
version = "0.1.0"
edition = "2021"
publish = false

[dependencies]
anyhow = "*"
chrono = "*"
ffprobe = "*"
pico-args = "*"
rexiv2 = "*"
rusqlite = { version = "*", features = ["bundled"] }
walkdir = "*"
