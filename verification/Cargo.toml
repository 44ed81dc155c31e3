[package]
name = "weather-rs"
version = "0.1.0"
edition = "2021"
publish = false

[dependencies]
reqwest = "0.12"
serde = { version = "1", features = ["derive"] }
serde_json = "1"
thiserror = "1"
tokio = { version = "1", features = ["macros", "rt-multi-thread"] }
