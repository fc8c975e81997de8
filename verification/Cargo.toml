[package]
name = "agentssh"
version = "0.1.0"
edition = "2021"
publish = false

[dependencies]
anyhow = "1"
askama = "*"
axum = "*"
clap = { version = "4", features = ["derive"] }
crossterm = "*"
directories = "*"
rand = "0.10"
rpassword = "*"
rusqlite = { version = "*", features = ["bundled"] }
russh = "*"
serde = { version = "1", features = ["derive"] }
serde_json = "1"
time = { version = "0.3", features = ["formatting", "parsing"] }
tokio = { version = "1", features = ["full"] }
toml = "*"
tracing-subscriber = { version = "*", features = ["env-filter"] }
