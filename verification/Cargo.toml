[package]
name = "devoxx"
version = "0.1.0"
edition = "2021"
publish = false

[dependencies]
hex = "0.4"
redis = "0.24"
reqwest = { version = "0.11", default-features = false }
sqlx = { version = "0.7", default-features = false, features = ["sqlite", "runtime-tokio"] }
tokio = { version = "1", features = ["rt-multi-thread", "macros", "time"] }
axum = "0.6"
