[package]
name = "gluon_news"
version = "0.1.0"
edition = "2021"
publish = false

[dependencies]
feed-rs = "*"
chrono = "*"
reqwest = { version = "*", default-features = false }
tokio = { version = "*", features = ["macros", "rt-multi-thread"] }
futures = "*"
serde = { version = "*", features = ["derive"] }
serde_json = "*"
