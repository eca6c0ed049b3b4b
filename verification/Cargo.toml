[package]
name = "hackathon_teams"
version = "0.1.0"
edition = "2021"
publish = false

[dependencies]
serde = { version = "1", features = ["derive"] }
serde_json = "1"
serenity = { version = "0.12", default-features = false, features = ["builder", "client", "collector", "gateway", "http", "model", "rustls_backend", "utils"] }
