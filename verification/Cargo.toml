[package]
name = "portfolio_blog"
version = "0.1.0"
edition = "2021"
publish = false

[dependencies]
markdown = "*"
chrono = "*"
axum = "*"
axum-server = { version = "*", features = ["tls-rustls"] }
tokio = { version = "*", features = ["full"] }
tower-http = { version = "*", features = ["fs"] }
maud = { version = "*", features = ["axum"] }
serde = { version = "*", features = ["derive"] }
serde_qs = { version = "*", features = ["axum"] }
