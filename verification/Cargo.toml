[package]
name = "xsrc"
version = "0.1.0"
edition = "2021"
publish = false

[dependencies]
linked-hash-map = "*"
serde = { version = "*", features = ["derive"] }
serde_yaml = "*"
clap = "*"
