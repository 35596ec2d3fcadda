[package]
name = "db_manager"
version = "0.1.0"
edition = "2021"
publish = false

[dependencies]
rand = "*"
serde_json = "*"
rusqlite = { version = "*", features = ["bundled"] }
