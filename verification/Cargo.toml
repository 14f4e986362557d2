[package]
name = "djour"
version = "0.1.0"
edition = "2021"
publish = false

[dependencies]
chrono = { version = "0.4", features = ["serde"] }
clap = { version = "4", features = ["derive"] }
pulldown-cmark = { version = "*", default-features = false }
regex = "1"
serde = { version = "1", features = ["derive"] }
thiserror = "*"
toml = "*"
walkdir = "2"
