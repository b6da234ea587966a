[package]
name = "ip_firewall"
version = "0.1.0"
edition = "2021"
publish = false

[dependencies]
hickory-proto = { version = "0.24", default-features = false }
rusqlite = "0.31"
serde = { version = "1", features = ["derive"] }
serde_json = "1"
