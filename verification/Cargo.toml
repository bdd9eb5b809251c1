[package]
name = "kyodoku"
version = "0.1.0"
edition = "2021"
publish = false

[dependencies]
anyhow = "=1.0.104"
async-trait = "=0.1.92"
chrono = "=0.4.45"
chrono-tz = "=0.10.4"
dotenvy = "=0.15.7"
redis = { version = "=0.25.5", features = ["tokio-comp"] }
reqwest = { version = "=0.12.28", default-features = false, features = ["json", "rustls-tls"] }
serde = { version = "=1.0.229", features = ["derive"] }
serenity = "=0.12.5"
songbird = { version = "0.4", default-features = false, features = ["serenity", "gateway"] }
sqlx = { version = "=0.8.6", default-features = false, features = ["runtime-tokio", "postgres", "chrono", "migrate", "macros"] }
tokio = { version = "=1.54.1", features = ["full"] }
tracing = "=0.1.44"
tracing-subscriber = { version = "=0.3.23", features = ["env-filter"] }
