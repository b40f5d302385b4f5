[package]
name = "crustynab"
version = "0.1.0"
edition = "2021"
publish = false

[dependencies]
anyhow = "1"
chrono = { version = "0.4", features = ["serde"] }
clap = { version = "4", features = ["derive"] }
futures = "0.3"
html-escape = "0.2"
indexmap = { version = "2", features = ["serde"] }
polars = { version = "0.46", features = ["lazy", "is_in"] }
serde = { version = "1", features = ["derive"] }
serde_json = "1"
ynab-api = "*"
