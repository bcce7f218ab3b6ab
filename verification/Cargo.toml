[package]
name = "cakecutter"
version = "0.1.0"
edition = "2021"
publish = false

[dependencies]
url = "*"
serde_json = "*"
clap = { version = "*", features = ["derive"] }
walkdir = "*"
log = "*"
colog = "*"
tempfile = "*"
git2 = { version = "*", default-features = false }
