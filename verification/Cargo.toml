[package]
name = "time_tally"
version = "0.1.0"
edition = "2021"
publish = false

[dependencies]
chrono = "=0.4.45"
computus = { version = "=2.0.0", features = ["chrono"] }
axum = "=0.7.9"
clap = { version = "4", features = ["derive"] }
config = "=0.15.27"
serde = { version = "1", features = ["derive"] }
serde_json = "1"
tokio = { version = "1", features = ["full"] }
tower-http = { version = "=0.7.1", features = ["trace"] }
tracing = "0.1"
tracing-subscriber = "0.3"
