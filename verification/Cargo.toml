[package]
name = "dns_monitor"
version = "0.1.0"
edition = "2021"
publish = false

[dependencies]
chrono = "*"
rusqlite = { version = "*", features = ["bundled"] }
dirs = "*"
libc = "*"
serde = { version = "*", features = ["derive"] }
serde_json = "*"
