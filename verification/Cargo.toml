[package]
name = "nexus"
version = "0.1.0"
edition = "2021"
publish = false

[dependencies]
pubky-app-specs = "*"
serde = { version = "*", features = ["derive"] }
serde_json = "*"
tokio = { version = "*", features = ["rt-multi-thread", "macros", "sync", "time"] }
deadpool-redis = "*"
neo4rs = "*"
clap = { version = "*", features = ["derive"] }
axum = "*"
