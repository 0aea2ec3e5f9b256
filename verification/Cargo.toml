[package]
name = "fusestore"
version = "0.1.0"
edition = "2021"
publish = false

[dependencies]
sha2 = "0.10"
humantime = "2"
serde_json = "1"
log = { version = "0.4", features = ["kv_unstable_std"] }
fern = "0.6"
tracing-appender = "0.2"
minitrace = "0.6"
opentelemetry = { version = "0.21", features = ["logs"] }
opentelemetry_sdk = { version = "0.21", features = ["logs", "rt-tokio"] }
opentelemetry-otlp = { version = "0.14", features = ["logs"] }
async-trait = "0.1"
async-backtrace = "0.2"
