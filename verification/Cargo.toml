[package]
name = "h3cellstore"
version = "0.1.0"
edition = "2021"
publish = false

[dependencies]
h3ron = "=0.18.0"
url = "=2.5.8"
geo = "=0.33.1"
geo-types = "=0.7.20"
clickhouse-rs = "=1.1.0-alpha.1"
tokio = { version = "=1.54.1", features = ["rt-multi-thread"] }
futures-util = "=0.3.34"
chrono = "=0.4.45"
chrono-tz = "0.8"
serde = { version = "=1.0.229", features = ["derive"] }
serde_json = "=1.0.154"
either = "=1.19.0"
log = "0.4"

[dev-dependencies]
regex = "=1.13.1"
