[package]
name = "modtoggler"
version = "0.1.0"
edition = "2021"
publish = false

[dependencies]
serde = { version = "1", features = ["derive"] }
serde_json = "1"
zip = { version = "2", default-features = false, features = ["deflate"] }
tokio = { version = "1", features = ["fs", "io-util", "rt", "sync"] }
sqlx = { version = "0.8", default-features = false, features = ["sqlite", "runtime-tokio"] }
