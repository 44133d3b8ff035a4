[package]
name = "connectforge"
version = "0.1.0"
edition = "2021"
publish = false

[dependencies]
anyhow = "=1.0.104"
async-graphql = { version = "=7.2.1", features = ["chrono"] }
async-trait = "=0.1.92"
axum = { version = "=0.8.9", features = ["ws"] }
chrono = { version = "=0.4.45", features = ["serde"] }
clap = { version = "=4.6.7", features = ["derive", "env"] }
dashmap = "=6.2.1"
dotenvy = "=0.15.7"
futures = "=0.3.34"
metrics = "=0.24.6"
parking_lot = "=0.12.5"
serde = { version = "=1.0.229", features = ["derive"] }
serde_json = "=1.0.154"
thiserror = "=2.0.21"
tokio = { version = "=1.54.1", features = ["full"] }
tokio-stream = { version = "=0.1.19", features = ["sync"] }
tracing = "=0.1.44"
