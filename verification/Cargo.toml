[package]
name = "sheet_export"
version = "0.1.0"
edition = "2021"
publish = false

[dependencies]
calamine = { version = "0.19", features = ["dates"] }
chrono = { version = "0.4", default-features = false }
csv = "1"
itertools = "*"
log = "0.4"
serde = { version = "1", features = ["derive"] }
thousands = "0.2"
