[package]
name = "vellum"
version = "0.1.0"
edition = "2021"
publish = false

[dependencies]
base64 = "*"
chrono = "*"
dirs = "*"
pulldown-cmark = "*"
serde = { version = "*", features = ["derive"] }
toml = "*"
