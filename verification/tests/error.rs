use microscaler_observability::{ObservabilityError, ObservabilityResult};

#[test]
fn already_initialized_display_is_actionable() {
    let err = ObservabilityError::AlreadyInitialized;
    let rendered = err.to_string();
    assert!(
        rendered.contains("already initialized"),
        "AlreadyInitialized message must be human-readable: {rendered}"
    );
    assert!(
        rendered.contains("main()"),
        "AlreadyInitialized must tell the reader where init() is meant to be called: {rendered}"
    );
}

#[test]
fn invalid_endpoint_display_includes_value_and_reason() {
    let err = ObservabilityError::InvalidEndpoint {
        value: "not a url".to_string(),
        reason: "missing scheme".to_string(),
    };
    let rendered = err.to_string();
    assert!(rendered.contains("not a url"));
    assert!(rendered.contains("missing scheme"));
}

#[test]
fn exporter_construction_propagates_inner_reason() {
    let err = ObservabilityError::ExporterConstruction("TLS handshake failed".to_string());
    assert!(err.to_string().contains("TLS handshake failed"));
}

#[test]
fn observability_result_compiles_as_result_alias() {
    let ok: ObservabilityResult<i32> = Ok(42);
    let err: ObservabilityResult<i32> = Err(ObservabilityError::AlreadyInitialized);
    assert!(matches!(ok, Ok(42)));
    assert!(err.is_err());
}

#[test]
fn messages_are_exact() {
    assert_eq!(
        ObservabilityError::AlreadyInitialized.to_string(),
        "microscaler-observability was already initialized; init() must be called exactly once from main()"
    );
    assert_eq!(
        ObservabilityError::InvalidEndpoint {
            value: "otel:4317".to_string(),
            reason: "must start with http:// or https://".to_string(),
        }
        .to_string(),
        "invalid OTLP endpoint `otel:4317`: must start with http:// or https://"
    );
    assert_eq!(
        ObservabilityError::ExporterConstruction("boom".to_string()).to_string(),
        "OTLP exporter construction failed: boom"
    );
    assert_eq!(
        ObservabilityError::SubscriberAlreadyInstalled.to_string(),
        "a tracing subscriber is already globally installed"
    );
    assert_eq!(
        ObservabilityError::Shutdown("flush timed out".to_string()).to_string(),
        "observability shutdown failed: flush timed out"
    );
}
