[package]
name = "amigo"
version = "0.1.0"
edition = "2021"
publish = false

[dependencies]
tokio = { version = "*", features = ["sync", "macros", "rt-multi-thread", "time", "net"] }
rand = "*"
axum = { version = "*", features = ["ws"] }
serde = { version = "*", features = ["derive"] }
serde_json = "*"
sqlx = { version = "*", features = ["runtime-tokio", "sqlite"] }
anyhow = "*"
futures-util = "*"
tower-http = { version = "*", features = ["cors", "trace"] }
tracing = "*"
tracing-subscriber = { version = "*", features = ["env-filter", "fmt"] }
