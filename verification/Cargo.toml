[package]
name = "changes_parser"
version = "0.1.0"
edition = "2021"
publish = false

[dependencies]
indexmap = "2"
serde = { version = "1", features = ["derive"] }
serde_json = "1"
thiserror = "2"
once_cell = "1"
scraper = "*"
jsonpath-rust = "*"
nom = "8"
