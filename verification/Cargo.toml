[package]
name = "profit_tracker"
version = "0.1.0"
edition = "2021"
publish = false

[dependencies]
csv = "*"
clap = { version = "*", features = ["derive"] }
rusqlite = { version = "*", features = ["bundled"] }
serde = { version = "*", features = ["derive"] }
time = { version = "*", features = ["local-offset", "formatting", "parsing"] }
