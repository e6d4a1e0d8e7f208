[package]
name = "f1_aggregator"
version = "0.1.0"
edition = "2021"
publish = false

[dependencies]
chrono = { version = "=0.4.45", features = ["serde"] }
dashmap = "=6.2.1"
serde = { version = "=1.0.229", features = ["derive"] }
serde_json = "=1.0.154"
axum = "=0.8.9"
tokio = { version = "=1.54.1", features = ["full"] }
reqwest = { version = "=0.12.28", default-features = false, features = ["json", "rustls-tls"] }
http = "=1.5.0"
tracing = "=0.1.44"
tracing-subscriber = "=0.3.23"
tower-http = { version = "=0.6.11", features = ["trace"] }
dotenv = "=0.15.0"
jsonwebtoken = "=9.3.1"
argon2 = { version = "=0.5.3", features = ["std"] }
postgrest = "=1.6.0"
supabase-auth = "=0.10.14"
