[package]
name = "watchlist_sync"
version = "0.1.0"
edition = "2021"
publish = false

[dependencies]
xmlparser = "*"
serde = { version = "*", features = ["derive"] }
reqwest = { version = "*", default-features = false, features = ["cookies", "json", "rustls-tls"] }
tokio = { version = "*", features = ["rt-multi-thread", "macros"] }
dotenv = "*"
tracing-subscriber = "*"
