[package]
name = "sheet_search"
version = "0.1.0"
edition = "2021"
publish = false

[dependencies]
axum = "=0.8.9"
calamine = "=0.37.0"
chrono = { version = "=0.4.45", features = ["serde"] }
dotenv = "=0.15.0"
md5 = "=0.7.0"
rust_xlsxwriter = "=0.101.0"
sea-orm = { version = "=1.1.20", default-features = false, features = ["sqlx-postgres", "runtime-tokio-rustls", "macros", "with-chrono", "with-json"] }
serde = { version = "=1.0.229", features = ["derive"] }
serde_json = { version = "=1.0.154", features = ["preserve_order"] }
tokio = { version = "=1.54.1", features = ["full"] }
tower-http = { version = "=0.6.11", features = ["fs", "cors"] }
tracing = "=0.1.44"
tracing-subscriber = "=0.3.23"
