[package]
name = "ascii_hangman_backend"
version = "0.1.0"
edition = "2021"
publish = false

[dependencies]
serde_yaml = "0.8"
rand = "0.8"
