[package]
name = "org_server"
version = "0.1.0"
edition = "2021"
publish = false

[dependencies]
axum = "0.6"
maud = "0.25"
tokio = { version = "1", features = ["full"] }

[dev-dependencies]
scraper = "0.19"
