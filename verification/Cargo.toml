[package]
name = "shortener"
version = "0.1.0"
edition = "2021"
publish = false

[dependencies]
rusqlite = { version = "*", features = ["bundled"] }
poem = { version = "*", features = ["compression"] }
poem-openapi = { version = "*", features = ["swagger-ui"] }
serde = { version = "*", features = ["derive"] }
serde_json = "*"
tokio = { version = "*", features = ["macros", "rt-multi-thread", "signal"] }
tracing = "*"
tracing-subscriber = "*"
async-trait = "*"
