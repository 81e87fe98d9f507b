[package]
name = "microscaler_observability"
version = "0.1.0"
edition = "2021"
publish = false

[dependencies]
opentelemetry = "0.29"
opentelemetry_sdk = { version = "0.29", default-features = false, features = ["trace", "logs"] }
opentelemetry-otlp = { version = "0.29", default-features = false, features = ["grpc-tonic", "trace", "logs"] }
opentelemetry-appender-tracing = "0.29"
opentelemetry-semantic-conventions = "0.29"
tracing-opentelemetry = "0.30"
tracing-subscriber = { version = "0.3", features = ["env-filter", "fmt", "registry"] }
thiserror = "2"
