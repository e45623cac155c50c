[package]
name = "fpkg"
version = "0.1.0"
edition = "2021"
publish = false

[dependencies]
anyhow = "1"
indicatif = "0.17"
log = "0.4"
nix = { version = "0.29", features = ["mount"] }
rand = "0.9"
reqwest = { version = "0.12", default-features = false, features = ["blocking"] }
sys-mount = "3"
tar = "0.4"
walkdir = "2"
zstd = "0.13"
