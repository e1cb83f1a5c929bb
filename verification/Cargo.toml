[package]
name = "keep_running"
version = "0.1.0"
edition = "2021"
publish = false

[dependencies]
serde_json = "=1.0.154"
rand = "=0.9.5"
serde = { version = "=1.0.229", features = ["derive"] }
tokio = { version = "=1.54.1", features = ["full"] }
tonic = "=0.12.3"
prost = "=0.13.5"
tracing = "=0.1.44"
tracing-subscriber = "=0.3.23"
tracing-appender = "=0.2.5"
anyhow = "=1.0.104"
futures = "=0.3.34"
lazy_static = "=1.5.1"
