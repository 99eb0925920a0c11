[package]
name = "sush"
version = "0.1.0"
edition = "2021"
publish = false

[dependencies]
unicode-width = "0.1"
nix = { version = "0.27", features = ["fs", "process", "signal", "term", "user"] }
faccess = "0.2"
