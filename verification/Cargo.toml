[package]
name = "steam_common_games"
version = "0.1.0"
edition = "2021"
publish = false

[dependencies]
anyhow = "=1.0.104"
futures = "=0.3.34"
reqwest = { version = "=0.11.27", default-features = false, features = ["json", "rustls-tls"] }
serde = { version = "=1.0.229", features = ["derive"] }
serenity = { version = "=0.11.7", default-features = false, features = ["builder", "cache", "client", "gateway", "http", "model", "utils", "rustls_backend"] }
shuttle-persist = "=0.25.0"
shuttle-runtime = "=0.25.0"
shuttle-secrets = "=0.25.0"
shuttle-serenity = "=0.25.0"
sqlx = { version = "=0.7.4", default-features = false, features = ["postgres", "runtime-tokio-rustls", "macros"] }
tokio = { version = "=1.54.1", features = ["macros", "rt-multi-thread"] }
tracing = "=0.1.44"

[dev-dependencies]
serde_json = "=1.0.154"
