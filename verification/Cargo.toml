[package]
name = "cyberapi"
version = "0.1.0"
edition = "2021"
publish = false

[dependencies]
zip = "*"
chrono = "*"
serde_json = "*"
sea-orm = { version = "*", default-features = false, features = ["sqlx-sqlite", "runtime-tokio-rustls", "macros"] }
tokio = { version = "*", features = ["rt", "sync", "macros"] }
once_cell = "*"
