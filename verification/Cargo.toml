[package]
name = "beatstar"
version = "0.1.0"
edition = "2021"
publish = false

[dependencies]
anyhow = "1"
chrono = { version = "0.4", default-features = false, features = ["std"] }
once_cell = "1"
serde = { version = "1", features = ["derive"] }
serde_json = "1"
tracing = "0.1"
tracing-subscriber = "0.3"
ureq = "2"
zip = { version = "0.6", default-features = false, features = ["deflate"] }
