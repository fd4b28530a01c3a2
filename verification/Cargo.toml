[package]
name = "cartografo-telemetry"
version = "0.1.0"
edition = "2021"
publish = false

[dependencies]
http = "=1.5.0"
opentelemetry = { version = "=0.31.0", default-features = false, features = ["trace"] }
opentelemetry-http = { version = "=0.31.0", default-features = false }
opentelemetry-otlp = { version = "=0.31.1", default-features = false, features = ["trace", "http-proto", "reqwest-blocking-client", "reqwest-rustls-webpki-roots"] }
opentelemetry_sdk = { version = "=0.31.0", default-features = false, features = ["trace"] }
thiserror = "=2.0.21"
tower-http = { version = "=0.6.11", features = ["trace"] }
tracing = "=0.1.44"
tracing-opentelemetry = { version = "=0.32.1", default-features = false }
tracing-subscriber = { version = "=0.3.23", features = ["env-filter", "json", "fmt"] }
