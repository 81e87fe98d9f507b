use microscaler_observability::bootstrap::{
    build_resource_attributes, check_log_exporter_protocol, check_span_exporter_protocol,
    conclude_init, directives_are_safe, env_filter_directives, plan_init, should_install_stdout_fmt,
    validate_endpoint, InitPlan,
};
use microscaler_observability::{
    ObservabilityConfig, ObservabilityError, OtlpProtocol, ShutdownGuard,
};

fn pairs(v: &[(&str, &str)]) -> Vec<(String, String)> {
    v.iter().map(|(k, v)| (k.to_string(), v.to_string())).collect()
}

fn with_endpoint(e: &str) -> ObservabilityConfig {
    let mut c = ObservabilityConfig::default();
    c.endpoint = Some(e.to_string());
    c
}

#[test]
fn validate_endpoint_accepts_http() {
    assert!(validate_endpoint("http://otel-collector.observability:4317").is_ok());
}

#[test]
fn validate_endpoint_rejects_bare_host() {
    assert!(validate_endpoint("otel-collector:4317").is_err());
}

#[test]
fn validate_endpoint_reasons() {
    assert!(validate_endpoint("https://collector").is_ok());
    assert!(validate_endpoint("  http://collector:4317 ").is_ok());
    match validate_endpoint("HTTP://collector") {
        Err(ObservabilityError::InvalidEndpoint { value, reason }) => {
            assert_eq!(value, "HTTP://collector");
            assert_eq!(reason, "must start with http:// or https://");
        }
        other => panic!("unexpected {other:?}"),
    }
    match validate_endpoint(" \t") {
        Err(ObservabilityError::InvalidEndpoint { value, reason }) => {
            assert_eq!(value, " \t");
            assert_eq!(reason, "endpoint is empty after trim");
        }
        other => panic!("unexpected {other:?}"),
    }
}

#[test]
fn second_initialization_is_refused() {
    for config in [ObservabilityConfig::default(), with_endpoint("http://c:4317")] {
        assert!(matches!(
            plan_init(true, &config),
            Err(ObservabilityError::AlreadyInitialized)
        ));
    }
}

#[test]
fn no_endpoint_installs_stdout_only() {
    let config = ObservabilityConfig::default();
    assert!(should_install_stdout_fmt(&config));
    assert!(matches!(
        plan_init(false, &config),
        Ok(InitPlan::FmtOnly { with_stdout: true })
    ));
}

#[test]
fn blank_endpoint_installs_no_pipeline() {
    let config = with_endpoint("   ");
    assert!(!should_install_stdout_fmt(&config));
    assert!(matches!(
        plan_init(false, &config),
        Ok(InitPlan::FmtOnly { with_stdout: false })
    ));
}

#[test]
fn bad_endpoint_is_refused_before_anything_is_built() {
    match plan_init(false, &with_endpoint("otel-collector:4317")) {
        Err(ObservabilityError::InvalidEndpoint { value, reason }) => {
            assert_eq!(value, "otel-collector:4317");
            assert_eq!(reason, "must start with http:// or https://");
        }
        other => panic!("unexpected {:?}", other.is_ok()),
    }
}

#[test]
fn good_endpoint_plans_otlp_pipeline() {
    let mut config = with_endpoint("http://otel-collector:4317")
        .with_service_name("hauliage-bff")
        .with_service_version("1.0.0")
        .with_deployment_environment("prod");
    config.extra_resource_attributes = pairs(&[("team", "core")]);
    config.dev_logs_to_stdout_override = true;
    match plan_init(false, &config) {
        Ok(InitPlan::Otlp { endpoint, with_stdout, resource_attributes }) => {
            assert_eq!(endpoint, "http://otel-collector:4317");
            assert!(with_stdout);
            assert_eq!(
                resource_attributes,
                pairs(&[
                    ("service.name", "hauliage-bff"),
                    ("service.namespace", "microscaler"),
                    ("service.version", "1.0.0"),
                    ("deployment.environment", "prod"),
                    ("team", "core"),
                ])
            );
        }
        other => panic!("unexpected {:?}", other.is_ok()),
    }
}

#[test]
fn resource_attributes_without_optional_fields() {
    let config = ObservabilityConfig::default().with_service_name("svc");
    assert_eq!(
        build_resource_attributes(&config),
        pairs(&[("service.name", "svc"), ("service.namespace", "microscaler")])
    );
}

#[test]
fn filter_directives_fall_back() {
    let mut config = ObservabilityConfig::default();
    assert_eq!(env_filter_directives(&config), "info");
    config.rust_log = Some("debug,hyper=warn".to_string());
    assert_eq!(env_filter_directives(&config), "debug,hyper=warn");
    config.rust_log = Some("hyper=loud".to_string());
    assert_eq!(env_filter_directives(&config), "error");
}

#[test]
fn http_exporters_are_refused() {
    assert!(check_span_exporter_protocol(OtlpProtocol::Grpc).is_ok());
    assert!(check_log_exporter_protocol(OtlpProtocol::Grpc).is_ok());
    for p in [OtlpProtocol::HttpProto, OtlpProtocol::HttpJson] {
        match check_span_exporter_protocol(p) {
            Err(ObservabilityError::ExporterConstruction(m)) => assert_eq!(
                m,
                "HTTP OTLP for traces requires opentelemetry-otlp http features; use grpc (default) or extend Cargo.toml"
            ),
            other => panic!("unexpected {other:?}"),
        }
        match check_log_exporter_protocol(p) {
            Err(ObservabilityError::ExporterConstruction(m)) => {
                assert_eq!(m, "HTTP OTLP for logs not wired yet; use grpc")
            }
            other => panic!("unexpected {other:?}"),
        }
    }
}

#[test]
fn failed_subscriber_install_releases_the_flag() {
    let (result, stays) = conclude_init(false, ShutdownGuard::noop());
    assert!(matches!(result, Err(ObservabilityError::SubscriberAlreadyInstalled)));
    assert!(!stays);
    let (result, stays) = conclude_init(true, ShutdownGuard::noop());
    assert!(stays);
    assert!(result.map(|g| g.is_noop()).unwrap_or(false));
}

#[test]
fn validate_endpoint_requires_a_host() {
    for ok in [
        "http://collector:4317",
        "https://collector",
        "http://user@collector:4317/v1",
        "http://[::1]:4317",
        "http://c?x",
    ] {
        assert!(validate_endpoint(ok).is_ok(), "{ok:?}");
    }
    for bad in ["http://", "https://", "http://:4317", "http:///path", "http://user@", "http://a@:1", "https://#frag"] {
        match validate_endpoint(bad) {
            Err(ObservabilityError::InvalidEndpoint { value, reason }) => {
                assert_eq!(value, bad);
                assert_eq!(reason, "must name a host after the scheme");
            }
            other => panic!("unexpected {other:?} for {bad:?}"),
        }
    }
    assert!(matches!(
        plan_init(false, &with_endpoint("http://")),
        Err(ObservabilityError::InvalidEndpoint { .. })
    ));
}

#[test]
fn filter_directives_the_parser_cannot_read_are_not_parsed() {
    assert!(directives_are_safe("info,hyper=warn "));
    assert!(directives_are_safe(""));
    assert!(directives_are_safe("info, hyper=warn"));
    assert!(directives_are_safe("  debug"));
    assert!(directives_are_safe("é=info"));
    assert!(directives_are_safe("info,é=debug"));
    assert!(!directives_are_safe(" é=info"));
    assert!(!directives_are_safe("\u{3000}a=info"));
    assert!(!directives_are_safe("info, é=debug"));
    let mut config = ObservabilityConfig::default();
    for text in [" é=info", "\u{3000}a=info", "debug, é=info"] {
        config.rust_log = Some(text.to_string());
        assert_eq!(env_filter_directives(&config), "error", "{text:?}");
    }
    for text in ["info, debug", " debug", "info,hyper=warn"] {
        config.rust_log = Some(text.to_string());
        assert_eq!(env_filter_directives(&config), text, "{text:?}");
    }
}
