[package]
name = "workspace_analyzer"
version = "0.1.0"
edition = "2021"
publish = false

[dependencies]
argh = "*"
glob = "*"
serde = { version = "*", features = ["derive"] }
tabled = "*"
toml = "*"
walkdir = "*"
