[package]
name = "woman"
version = "0.1.0"
edition = "2021"
publish = false

[dependencies]
ratatui = "*"
clap = { version = "4", features = ["derive"] }
atty = "0.2"
color-eyre = "0.6"
