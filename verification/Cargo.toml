[package]
name = "gatekeeper"
version = "0.1.0"
edition = "2021"
publish = false

[dependencies]
anyhow = "1"
arc-swap = "1"
argon2 = "0.5"
axum = "0.7"
clap = { version = "4", features = ["derive"] }
dotenvy = "0.15"
http-body-util = "0.1"
hyper = { version = "1", features = ["client", "http1"] }
hyper-tls = "0.6"
hyper-util = { version = "0.1", features = ["client-legacy", "http1", "tokio"] }
jsonwebtoken = "9"
mime_guess = "2"
notify = "6"
once_cell = "1"
opentelemetry = { version = "0.21", features = ["metrics"] }
opentelemetry-prometheus = "0.14"
opentelemetry_sdk = { version = "0.21", features = ["metrics"] }
prometheus = "0.13"
prost = "0.12"
reqwest = "0.11"
rust-embed = "8"
serde = { version = "1", features = ["derive"] }
serde_json = "1"
tokio = { version = "1", features = ["full"] }
toml = "0.8"
tonic = "0.11"
tracing = "0.1"
tracing-subscriber = "0.3"
wasmtime = "17"
