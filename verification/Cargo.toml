[package]
name = "haj"
version = "0.3.0"
edition = "2021"
publish = false

[dependencies]
alpm = "4"
ansi-to-tui = "7"
anyhow = "1"
async-trait = "0.1"
chrono = "0.4"
clap = { version = "4", features = ["derive"] }
clap_complete = "4"
crossterm = "0.28"
libc = "0.2"
owo-colors = "4"
ratatui = "0.29"
reqwest = { version = "0.12", features = ["json"] }
serde = { version = "1", features = ["derive"] }
serde_json = "1"
tokio = { version = "1", features = ["full"] }
toml = "0.8"
