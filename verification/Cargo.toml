[package]
name = "rusty_gpt"
version = "0.1.0"
edition = "2021"
publish = false

[dependencies]
anyhow = "=1.0.104"
axum = { version = "=0.8.9", default-features = false, features = ["http1", "json", "tokio"] }
chrono = { version = "=0.4.45", default-features = false, features = ["now"] }
clap = { version = "=4.6.7", default-features = false, features = ["std", "derive", "help", "usage", "error-context"] }
rand = { version = "=0.9.5", default-features = false, features = ["std", "thread_rng"] }
reqwest = { version = "=0.12.28", default-features = false, features = ["blocking", "rustls-tls"] }
serde = { version = "=1.0.229", features = ["derive"] }
serde_json = "=1.0.154"
sha2 = "=0.10.9"
signal-hook = "=0.3.18"
tokio = { version = "=1.54.1", default-features = false, features = ["rt", "net", "time"] }
tower-http = { version = "=0.6.11", default-features = false, features = ["limit"] }
uuid = { version = "=1.29.0", features = ["v4"] }
