[package]
name = "nm_remover"
version = "0.1.0"
edition = "2021"
publish = false

[dependencies]
anyhow = "*"
bytesize = "*"
clap = { version = "*", features = ["derive"] }
crossterm = "*"
ratatui = "*"
rayon = "*"
shellexpand = "*"
walkdir = "*"
