[package]
name = "taskmr"
version = "0.1.0"
edition = "2021"
publish = false

[dependencies]
rusqlite = { version = "*", features = ["bundled"] }
uuid = { version = "*", features = ["v4"] }
chrono = "*"
clap = { version = "*", features = ["derive"] }
dirs = "*"
tabwriter = "*"
