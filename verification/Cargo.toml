[package]
name = "stock_indicators"
version = "0.1.0"
edition = "2021"
publish = false

[dependencies]
chrono = "=0.4.45"
csv = "=1.4.0"
math = "=0.0.2"
mongodb = { version = "=2.6.1", default-features = false, features = ["sync"] }
reqwest = { version = "=0.11.27", features = ["blocking"] }
rouille = "=3.6.2"
serde = { version = "=1.0.229", features = ["derive"] }
yahoo_finance_api = { version = "=1.6.1", features = ["blocking"] }
