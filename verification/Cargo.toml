[package]
name = "micromegas_lakehouse"
version = "0.1.0"
edition = "2021"
publish = false

[dependencies]
xxhash-rust = { version = "=0.8.19", features = ["xxh32"] }
uuid = "=1.29.0"
chrono = "=0.4.45"
base64 = "=0.23.1"
hex = "=0.4.3"
prost = "=0.14.4"
opentelemetry-proto = { version = "=0.33.1", default-features = false, features = ["gen-tonic-messages", "trace", "logs", "metrics", "with-serde"] }
jsonb = "=0.5.6"
anyhow = "=1.0.104"
serde_json = "=1.0.154"
