//! Hexagonal observability adapter: configuration and start-up decisions.
//!
//! The configuration is read from the OpenTelemetry-standard environment
//! variables ([`ObservabilityConfig::from_env`]) and adjusted with builders.
//! Start-up ([`bootstrap`]) decides, from that configuration, whether the
//! adapter may start, which pipeline it builds (a stdout `fmt` layer only, or
//! OTLP traces and logs to a validated endpoint), with which resource
//! attributes and filter directives; the host performs what it decides and
//! keeps the returned [`ShutdownGuard`] alive for the process lifetime.
pub mod bootstrap;
pub mod config;
pub mod error;
pub mod shutdown;
pub mod text;

pub use config::{EnvSnapshot, ObservabilityConfig, OtlpProtocol, Sampler};
pub use error::{ObservabilityError, ObservabilityResult};
pub use shutdown::ShutdownGuard;
