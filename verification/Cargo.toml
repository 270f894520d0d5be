[package]
name = "data_collector"
version = "0.1.0"
edition = "2021"
publish = false

[dependencies]
chrono = "=0.4.45"
yahoo_finance_api = { version = "=5.0.0", features = ["blocking"] }

[dev-dependencies]
csv = "=1.4.0"
