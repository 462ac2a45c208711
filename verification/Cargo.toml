[package]
name = "tmuxido"
version = "0.9.1"
edition = "2021"
publish = false

[dependencies]
anyhow = "1"
clap = { version = "4", features = ["derive"] }
dirs = "*"
lipgloss = "*"
serde = { version = "1", features = ["derive"] }
serde_json = "1"
shellexpand = "*"
toml = "*"
walkdir = "2"
