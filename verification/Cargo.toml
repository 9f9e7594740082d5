[package]
name = "tile_fetch"
version = "0.1.0"
edition = "2021"
publish = false

[dependencies]
clap = { version = "3", features = ["derive"] }
reqwest = { version = "0.11", features = ["blocking"] }
