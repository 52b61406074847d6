[package]
name = "intro_gateway"
version = "0.1.0"
edition = "2021"
publish = false

[dependencies]
serde_json = "1"
serde = { version = "1", features = ["derive"] }
axum = "0.7"
mongodb = "2"
tokio = { version = "1", features = ["macros", "rt-multi-thread", "net"] }
dotenv = "0.15"
