[package]
name = "chat_fanout"
version = "0.1.0"
edition = "2021"
publish = false

[dependencies]
serde_json = "=1.0.154"
chrono = { version = "=0.4.45", default-features = false, features = ["clock", "std", "serde"] }
serde = { version = "=1.0.229", features = ["derive"] }
tokio = { version = "=1.54.1", features = ["full"] }
futures-util = { version = "=0.3.34", features = ["sink"] }
axum = { version = "=0.7.9", features = ["ws"] }
tower-http = { version = "=0.5.2", features = ["cors", "fs"] }
tracing-subscriber = { version = "=0.3.23", features = ["env-filter"] }
dotenvy = "=0.15.7"
sea-orm = { version = "=0.12.15", default-features = false, features = ["macros", "with-chrono", "with-json", "sqlx-postgres", "runtime-tokio-rustls"] }
