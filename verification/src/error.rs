//! Error type of the observability adapter.
use vstd::prelude::*;
use vstd::string::StringExecFns;

verus! {

/// Any error produced while constructing or shutting down the observability
/// adapter.
#[derive(Debug)]
pub enum ObservabilityError {
    /// Initialization was requested more than once in a single process.
    AlreadyInitialized,
    /// The OTLP endpoint was malformed: empty, not an `http://` / `https://`
    /// URL, or a URL that names no host.
    InvalidEndpoint {
        /// The offending endpoint value.
        value: String,
        /// Human-readable explanation.
        reason: String,
    },
    /// The OTLP exporter could not be constructed (unsupported transport,
    /// TLS error, transport failure, etc.).
    ExporterConstruction(String),
    /// Another `tracing` subscriber has already claimed the global slot.
    SubscriberAlreadyInstalled,
    /// Failure while flushing the batch processors on shutdown.
    Shutdown(String),
}

/// Convenience alias for `Result<T, ObservabilityError>`.
pub type ObservabilityResult<T> = Result<T, ObservabilityError>;

/// The human-readable message of an error.
pub open spec fn error_message(e: ObservabilityError) -> Seq<char> {
    match e {
        ObservabilityError::AlreadyInitialized =>
            "microscaler-observability was already initialized; init() must be called exactly once from main()"@,
        ObservabilityError::InvalidEndpoint { value, reason } =>
            "invalid OTLP endpoint `"@ + value@ + "`: "@ + reason@,
        ObservabilityError::ExporterConstruction(m) => "OTLP exporter construction failed: "@ + m@,
        ObservabilityError::SubscriberAlreadyInstalled =>
            "a tracing subscriber is already globally installed"@,
        ObservabilityError::Shutdown(m) => "observability shutdown failed: "@ + m@,
    }
}

impl ObservabilityError {
    /// The human-readable message of this error.
    pub fn to_string(&self) -> (r: String)
        ensures
            r@ == error_message(*self),
    {
        match self {
            ObservabilityError::AlreadyInitialized => {
                "microscaler-observability was already initialized; init() must be called exactly once from main()".to_owned()
            },
            ObservabilityError::InvalidEndpoint { value, reason } => {
                let mut s = "invalid OTLP endpoint `".to_owned();
                s.append(value.as_str());
                s.append("`: ");
                s.append(reason.as_str());
                s
            },
            ObservabilityError::ExporterConstruction(m) => {
                let mut s = "OTLP exporter construction failed: ".to_owned();
                s.append(m.as_str());
                s
            },
            ObservabilityError::SubscriberAlreadyInstalled => {
                "a tracing subscriber is already globally installed".to_owned()
            },
            ObservabilityError::Shutdown(m) => {
                let mut s = "observability shutdown failed: ".to_owned();
                s.append(m.as_str());
                s
            },
        }
    }
}

} // verus!
