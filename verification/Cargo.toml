[package]
name = "ninoverse"
version = "0.1.0"
edition = "2021"
publish = false

[dependencies]
serde = { version = "1", features = ["derive"] }
serde_json = "1"
thiserror = "1"
dotenv = "0.15"
chrono = "0.4"
tokio = { version = "1", features = ["full"] }
futures = "0.3"
sqlx = { version = "0.8", features = ["postgres", "runtime-tokio", "migrate"] }
rdkafka = "*"
