[package]
name = "memex"
version = "0.1.0"
edition = "2021"
publish = false

[dependencies]
ropey = "1.6"
fuzzy-matcher = "0.3"
toml = "0.8"
toml_edit = "0.22"
serde = { version = "1", features = ["derive"] }
serde_json = "1"
roxmltree = "0.20"
dirs = "5"
