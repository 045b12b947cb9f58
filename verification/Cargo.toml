[package]
name = "review_stats"
version = "0.1.0"
edition = "2021"
publish = false

[dependencies]
charts = "0.3"
chrono = { version = "0.4", features = ["serde"] }
csv = "1"
plotters = "0.3"
serde = { version = "1", features = ["derive"] }
serde_json = "1"
