[package]
name = "forge_obsidian"
version = "0.1.0"
edition = "2021"
publish = false

[dependencies]
serde_yaml = "*"
serde_json = "*"
walkdir = "*"
