[package]
name = "event_calendar"
version = "0.1.0"
edition = "2021"
publish = false

[dependencies]
axum = "=0.7.9"
chrono = { version = "=0.4.45", features = ["serde"] }
chronoutil = "=0.2.7"
dotenv = "=0.15.0"
serde = { version = "=1.0.229", features = ["derive"] }
serde_json = "=1.0.151"
sqlx = { version = "=0.8.6", features = ["runtime-tokio", "postgres", "chrono"] }
tokio = { version = "=1.53.2", features = ["full"] }
tower-http = { version = "=0.5.2", features = ["cors"] }
