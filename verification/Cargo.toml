[package]
name = "ghost_lib"
version = "0.1.0"
edition = "2021"
publish = false

[dependencies]
pulldown-cmark = "*"
scraper = "*"
serde = { version = "*", features = ["derive"] }
serde_yaml = "*"
walkdir = "*"
