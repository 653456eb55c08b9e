[package]
name = "mona"
version = "0.1.0"
edition = "2021"
publish = false

[dependencies]
anitomy = "*"
axum = "*"
dotenvy = "*"
rand = "*"
reqwest = { version = "*", default-features = false }
scraper = "*"
serde = { version = "*", features = ["derive"] }
serde_json = "*"
tokio = { version = "*", features = ["full"] }
tracing = "*"
tracing-subscriber = { version = "*", features = ["env-filter"] }
url = "*"
