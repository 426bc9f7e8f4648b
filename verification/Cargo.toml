[package]
name = "gb_forever"
version = "0.1.0"
edition = "2021"
publish = false

[dependencies]
async-stream = "=0.3.6"
camino = { version = "=1.2.6", features = ["serde1"] }
color-eyre = "=0.6.5"
config = { version = "=0.14.1", default-features = false, features = ["toml"] }
dotenvy = "=0.15.7"
futures = "=0.3.34"
reqwest = { version = "=0.12.28", default-features = false, features = ["json", "rustls-tls"] }
serde = { version = "=1.0.229", features = ["derive"] }
sqlx = { version = "=0.8.6", default-features = false, features = ["postgres", "runtime-tokio", "migrate"] }
tokio = { version = "=1.54.1", features = ["full"] }
tracing = "=0.1.44"
tracing-subscriber = { version = "=0.3.23", features = ["env-filter"] }
