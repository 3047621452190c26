[package]
name = "graph"
version = "0.1.0"
edition = "2021"
publish = false

[dependencies]
uuid = { version = "=1.29.0", features = ["v4"] }
serde_json = "=1.0.154"
serde = "=1.0.229"
tokio-postgres = { version = "=0.7.18", features = ["with-uuid-1", "with-serde_json-1", "with-time-0_3"] }
time = "=0.3.55"
async-trait = "=0.1.92"
flatbuffers = "=2.1.2"
