[package]
name = "somato"
version = "0.1.0"
edition = "2021"
publish = false

[dependencies]
anyhow = "1"
calamine = { version = "*", features = ["dates"] }
chrono = { version = "0.4", default-features = false, features = ["std"] }
colored = "*"
serde = { version = "1", features = ["derive"] }
toml = "*"
