[package]
name = "cogent"
version = "0.1.0"
edition = "2021"
publish = false

[dependencies]
anyhow = "=1.0.104"
async-stream = "=0.3.6"
async-trait = "=0.1.92"
backoff = "=0.4.0"
clap = { version = "=4.6.7", features = ["derive"] }
colored = "=2.2.0"
encoding_rs = "=0.8.44"
futures = "=0.3.34"
opentelemetry = "=0.27.1"
opentelemetry-otlp = { version = "=0.27.0", default-features = false, features = ["trace", "grpc-tonic"] }
opentelemetry_sdk = { version = "=0.27.1", features = ["rt-tokio"] }
proc-macro2 = "=1.0.107"
quote = "=1.0.47"
reqwest = { version = "=0.12.28", default-features = false, features = ["json", "stream", "rustls-tls"] }
rustyline = "=15.0.0"
schemars = "=0.8.22"
serde = { version = "=1.0.229", features = ["derive"] }
serde_json = "=1.0.154"
similar = "=2.7.0"
strsim = "=0.11.1"
syn = { version = "=2.0.119", features = ["full"] }
thiserror = "=2.0.21"
tokio = { version = "=1.54.1", features = ["full"] }
tracing = "=0.1.44"
tracing-opentelemetry = "=0.28.0"
tracing-subscriber = { version = "=0.3.23", features = ["env-filter"] }
url = "=2.5.8"
