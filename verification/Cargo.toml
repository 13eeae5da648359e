[package]
name = "yab_parser"
version = "0.1.0"
edition = "2021"
publish = false

[dependencies]
miette = "*"
serde = { version = "1", features = ["derive"] }
