[package]
name = "sam_core"
version = "0.1.0"
edition = "2021"
publish = false

[dependencies]
anyhow = "*"
clap = { version = "*", features = ["derive"] }
confy = "*"
crossterm = "*"
ratatui = "*"
serde = { version = "*", features = ["derive"] }
steamworks = "*"
