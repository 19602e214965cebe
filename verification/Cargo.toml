[package]
name = "chord_launcher"
version = "0.1.0"
edition = "2021"
publish = false

[dependencies]
shellexpand = "*"
serde = { version = "*", features = ["derive"] }
serde_json = "*"
clap = { version = "*", features = ["derive"] }
anyhow = "*"
dirs = "*"
nix = { version = "*", features = ["process"] }
eframe = { version = "*", default-features = false, features = ["default_fonts", "glow", "x11"] }
