[package]
name = "filebyte"
version = "0.1.0"
edition = "2021"
publish = false

[dependencies]
chrono = "*"
clap = "*"
colored = "*"
csv = "*"
infer = "*"
regex = "*"
serde = { version = "*", features = ["derive"] }
serde_json = "*"
sysinfo = "*"
