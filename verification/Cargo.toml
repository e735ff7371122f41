[package]
name = "perp_backend"
version = "0.1.0"
edition = "2021"
publish = false

[dependencies]
anyhow = "1"
axum = "0.8"
dotenv = "0.15"
ethers = { version = "=2.0.14", default-features = false, features = ["abigen", "ws"] }
futures = "0.3"
hex = "=0.4.3"
reqwest = { version = "0.11", default-features = false, features = ["json"] }
serde = { version = "1", features = ["derive"] }
serde_json = "1"
sled = "0.34"
tokio = { version = "1", features = ["macros", "rt-multi-thread", "sync", "time", "net"] }
tower-http = { version = "0.6", default-features = false, features = ["cors"] }
