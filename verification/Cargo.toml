[package]
name = "thermal_printer"
version = "0.1.0"
edition = "2021"
publish = false

[dependencies]
anyhow = "=1.0.104"
axum = { version = "=0.8.9", default-features = false, features = ["http1", "tokio", "json", "multipart"] }
bytes = "=1.12.1"
clap = { version = "=4.6.7", features = ["derive"] }
comrak = { version = "0.44", default-features = false }
cosmic-text = { version = "=0.19.0", default-features = false, features = ["std", "swash"] }
image = { version = "=0.25.10", default-features = false, features = ["png", "jpeg", "bmp", "gif", "webp"] }
leptos = "=0.8.23"
reqwest = { version = "=0.13.5", default-features = false, features = ["blocking", "multipart"] }
rusb = "=0.9.4"
scraper = "=0.29.0"
serde = { version = "=1.0.229", features = ["derive"] }
serde_json = "=1.0.154"
tiny-skia = "=0.12.0"
tokio = { version = "=1.54.1", features = ["macros", "rt-multi-thread", "net"] }
tracing = "=0.1.44"
tracing-subscriber = { version = "=0.3.23", features = ["env-filter"] }
