[package]
name = "stock_verifier"
version = "0.1.0"
edition = "2021"
publish = false

[dependencies]
html_editor = "=0.7.0"
structopt = "=0.3.26"
time = "=0.3.55"
tokio = { version = "=1.54.1", features = ["rt"] }
yahoo_finance_api = "=5.0.0"

[dev-dependencies]
chrono = "=0.4.45"
