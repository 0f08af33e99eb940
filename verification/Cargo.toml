[package]
name = "hamster"
version = "0.1.0"
edition = "2021"
publish = false

[dependencies]
anyhow = "1"
chrono = "0.4"
clap = { version = "4", features = ["derive"] }
colored = "2"
crossbeam = "0.8"
crossterm = "0.28"
dialoguer = "0.11"
directories = "5"
env_logger = "0.11"
fuzzy-matcher = "0.3"
glob = "0.3"
html-safe-md = "*"
indicatif = "0.17"
log = "0.4"
mail-parser = "0.9"
ratatui = "0.29"
serde = { version = "1", features = ["derive"] }
serde_json = "1"
strsim = "0.11"
tantivy = "0.22"
toml = "0.8"
walkdir = "2"
