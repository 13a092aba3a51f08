[package]
name = "bulletin"
version = "0.1.0"
edition = "2021"
publish = false

[dependencies]
ego-tree = "*"
scraper = "*"
ureq = "2"
libsql-client = "*"
serde = { version = "1", features = ["derive"] }
