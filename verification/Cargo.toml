[package]
name = "kline_ingest"
version = "0.1.0"
edition = "2021"
publish = false

[dependencies]
chrono = "0.4"
serde_json = "1"
serde = { version = "1", features = ["derive"] }
tokio = { version = "1", features = ["full"] }
reqwest = "*"
rusty_tarantool = "*"
rmpv = { version = "*", features = ["with-serde"] }
dotenvy = "*"
thiserror = "*"
async-trait = "*"
