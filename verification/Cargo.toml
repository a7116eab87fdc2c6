[package]
name = "surreal_migraine"
version = "0.1.0"
edition = "2021"
publish = false

[dependencies]
surrealdb = { version = "*", default-features = false }
include_dir = "*"
clap = { version = "*", features = ["derive"] }
chrono = "*"
serde = { version = "*", features = ["derive"] }
serde_json = "*"
eyre = "*"
color-eyre = "*"
tracing = "*"
tracing-subscriber = { version = "*", features = ["env-filter"] }
