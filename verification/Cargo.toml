[package]
name = "casefile"
version = "0.1.0"
edition = "2021"
publish = false

[dependencies]
toml = "0.8"
serde-saphyr = "*"
serde = { version = "1", features = ["derive"] }
serde_json = "1"
regex = "1"
time = { version = "0.3", features = ["parsing", "formatting"] }
sha2 = "0.10"
pulldown-cmark = "0.13"
tempfile = "3"
anyhow = "1"
thiserror = "2"
clap = { version = "4", features = ["derive"] }
ratatui = "0.29"
crossterm = "0.28"
tiny_http = "0.12"
rusqlite = { version = "0.32", features = ["bundled"] }
getrandom = "0.3"
