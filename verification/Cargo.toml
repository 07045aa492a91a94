[package]
name = "midiedit"
version = "0.1.0"
edition = "2021"
publish = false

[dependencies]
midly = "0.5"
anyhow = "1"
clap = { version = "4", features = ["derive"] }
ratatui = "*"
crossterm = "*"
