use microscaler_observability::config::{
    parse_dev_logs_to_stdout, parse_otel_resource_attributes, parse_otel_traces_sampler,
    parse_otlp_protocol, RATIO_ONE_BITS,
};
use microscaler_observability::{EnvSnapshot, ObservabilityConfig, OtlpProtocol, Sampler};

fn empty_env() -> EnvSnapshot {
    EnvSnapshot {
        otel_exporter_otlp_endpoint: None,
        otel_exporter_otlp_protocol: None,
        otel_exporter_otlp_timeout: None,
        otel_service_name: None,
        otel_service_version: None,
        deployment_environment: None,
        otel_resource_attributes: None,
        otel_traces_sampler: None,
        otel_traces_sampler_ratio_bits: None,
        otel_bsp_schedule_delay: None,
        otel_bsp_max_export_batch_size: None,
        otel_blrp_schedule_delay: None,
        otel_blrp_max_export_batch_size: None,
        rust_log: None,
        brrtr_dev_logs_to_stdout: None,
    }
}

fn pairs(v: &[(&str, &str)]) -> Vec<(String, String)> {
    v.iter().map(|(k, v)| (k.to_string(), v.to_string())).collect()
}

#[test]
fn otlp_protocol_default_is_grpc() {
    assert_eq!(OtlpProtocol::default(), OtlpProtocol::Grpc);
}

#[test]
fn sampler_default_is_parent_based_always_on() {
    assert_eq!(Sampler::default(), Sampler::ParentBasedAlwaysOn);
}

#[test]
fn config_default_has_no_endpoint_and_grpc_protocol() {
    let config = ObservabilityConfig::default();
    assert!(
        config.endpoint.is_none(),
        "default config must not auto-enable OTLP (preserves behaviour for services with no env vars)"
    );
    assert_eq!(config.protocol, OtlpProtocol::Grpc);
    assert_eq!(config.sampler, Sampler::ParentBasedAlwaysOn);
    assert!(!config.dev_logs_to_stdout_override);
}

#[test]
fn builder_sets_service_name() {
    let config = ObservabilityConfig::default().with_service_name("hauliage-bff");
    assert_eq!(config.service_name, "hauliage-bff");
}

#[test]
fn builder_sets_service_version() {
    let config = ObservabilityConfig::default().with_service_version("1.2.3");
    assert_eq!(config.service_version.as_deref(), Some("1.2.3"));
}

#[test]
fn builder_sets_deployment_environment() {
    let config = ObservabilityConfig::default().with_deployment_environment("prod");
    assert_eq!(config.deployment_environment.as_deref(), Some("prod"));
}

#[test]
fn builder_sets_sampler() {
    let config = ObservabilityConfig::default()
        .with_sampler(Sampler::ParentBasedTraceIdRatio(0.5_f64.to_bits()));
    assert_eq!(config.sampler, Sampler::ParentBasedTraceIdRatio(0.5_f64.to_bits()));
}

#[test]
fn builders_chain() {
    let config = ObservabilityConfig::default()
        .with_service_name("hauliage-fleet")
        .with_service_version("0.1.0")
        .with_deployment_environment("dev")
        .with_sampler(Sampler::AlwaysOff);
    assert_eq!(config.service_name, "hauliage-fleet");
    assert_eq!(config.service_version.as_deref(), Some("0.1.0"));
    assert_eq!(config.deployment_environment.as_deref(), Some("dev"));
    assert_eq!(config.sampler, Sampler::AlwaysOff);
}

#[test]
fn builders_commute_and_last_write_wins() {
    let a = ObservabilityConfig::default()
        .with_service_name("x")
        .with_sampler(Sampler::AlwaysOff)
        .with_service_name("y");
    let b = ObservabilityConfig::default()
        .with_sampler(Sampler::AlwaysOff)
        .with_service_name("y");
    assert_eq!(a.service_name, b.service_name);
    assert_eq!(a.sampler, b.sampler);
    assert_eq!(a.service_name, "y");
}

#[test]
fn builders_leave_other_fields_alone() {
    let mut env = empty_env();
    env.otel_exporter_otlp_endpoint = Some("http://collector:4317".to_string());
    env.rust_log = Some("debug".to_string());
    let config = ObservabilityConfig::from_env(&env).with_service_name("svc");
    assert_eq!(config.endpoint.as_deref(), Some("http://collector:4317"));
    assert_eq!(config.rust_log.as_deref(), Some("debug"));
    assert_eq!(config.timeout_ms, 10_000);
}

#[test]
fn protocol_values() {
    assert_eq!(parse_otlp_protocol(None), OtlpProtocol::Grpc);
    assert_eq!(parse_otlp_protocol(Some("grpc")), OtlpProtocol::Grpc);
    assert_eq!(parse_otlp_protocol(Some("http/protobuf")), OtlpProtocol::HttpProto);
    assert_eq!(parse_otlp_protocol(Some("http_proto")), OtlpProtocol::HttpProto);
    assert_eq!(parse_otlp_protocol(Some("http-proto")), OtlpProtocol::HttpProto);
    assert_eq!(parse_otlp_protocol(Some("http/json")), OtlpProtocol::HttpJson);
    assert_eq!(parse_otlp_protocol(Some("http-json")), OtlpProtocol::HttpJson);
    assert_eq!(parse_otlp_protocol(Some("http_json")), OtlpProtocol::Grpc);
    assert_eq!(parse_otlp_protocol(Some("")), OtlpProtocol::Grpc);
    assert_eq!(parse_otlp_protocol(Some("something else")), OtlpProtocol::Grpc);
}

#[test]
fn protocol_ignores_padding_and_ascii_case() {
    assert_eq!(parse_otlp_protocol(Some("  HTTP/Protobuf \t")), OtlpProtocol::HttpProto);
    assert_eq!(parse_otlp_protocol(Some("\u{3000}Http-JSON\u{a0}")), OtlpProtocol::HttpJson);
    assert_eq!(parse_otlp_protocol(Some("http /json")), OtlpProtocol::Grpc);
}

#[test]
fn resource_attributes_pairs() {
    assert_eq!(parse_otel_resource_attributes(None), pairs(&[]));
    assert_eq!(parse_otel_resource_attributes(Some("")), pairs(&[]));
    assert_eq!(
        parse_otel_resource_attributes(Some("deployment.environment=dev,service.namespace=hauliage")),
        pairs(&[("deployment.environment", "dev"), ("service.namespace", "hauliage")])
    );
    assert_eq!(
        parse_otel_resource_attributes(Some(" a = b , ,c, d=e=f ,")),
        pairs(&[("a", "b"), ("d", "e=f")])
    );
    assert_eq!(parse_otel_resource_attributes(Some("=v,k=")), pairs(&[("", "v"), ("k", "")]));
    assert_eq!(parse_otel_resource_attributes(Some(",,,")), pairs(&[]));
}

#[test]
fn resource_attributes_round_trip() {
    let attrs = pairs(&[("team", "obs"), ("region", "eu-west-1"), ("empty", "")]);
    let text = attrs
        .iter()
        .map(|(k, v)| format!("{k}={v}"))
        .collect::<Vec<_>>()
        .join(",");
    assert_eq!(parse_otel_resource_attributes(Some(&text)), attrs);
}

#[test]
fn sampler_values() {
    assert_eq!(parse_otel_traces_sampler(None, None), Sampler::ParentBasedAlwaysOn);
    assert_eq!(parse_otel_traces_sampler(Some("always_off"), None), Sampler::AlwaysOff);
    assert_eq!(parse_otel_traces_sampler(Some(" Always_OFF "), None), Sampler::AlwaysOff);
    assert_eq!(
        parse_otel_traces_sampler(Some("traceidratio"), Some(0.25_f64.to_bits())),
        Sampler::ParentBasedTraceIdRatio(0.25_f64.to_bits())
    );
    assert_eq!(
        parse_otel_traces_sampler(Some("parentbased_traceidratio"), None),
        Sampler::ParentBasedTraceIdRatio(1.0_f64.to_bits())
    );
    assert_eq!(RATIO_ONE_BITS, 1.0_f64.to_bits());
    assert_eq!(parse_otel_traces_sampler(Some("always_on"), None), Sampler::ParentBasedAlwaysOn);
    assert_eq!(
        parse_otel_traces_sampler(Some("parentbased_always_off"), None),
        Sampler::ParentBasedAlwaysOff
    );
    assert_eq!(
        parse_otel_traces_sampler(Some(" ParentBased_Always_Off"), None),
        Sampler::ParentBasedAlwaysOff
    );
    assert_eq!(
        parse_otel_traces_sampler(None, Some(0.5_f64.to_bits())),
        Sampler::ParentBasedAlwaysOn
    );
}

#[test]
fn dev_logs_override_values() {
    for on in ["1", "true", "TRUE", " yes ", "On"] {
        assert!(parse_dev_logs_to_stdout(Some(on)), "{on:?} must switch the override on");
    }
    for off in ["0", "false", "no", "off", "", "y", "1 1"] {
        assert!(!parse_dev_logs_to_stdout(Some(off)), "{off:?} must leave the override off");
    }
    assert!(!parse_dev_logs_to_stdout(None));
}

#[test]
fn from_env_with_nothing_set_gives_documented_defaults() {
    let config = ObservabilityConfig::from_env(&empty_env());
    assert_eq!(config.endpoint, None);
    assert_eq!(config.protocol, OtlpProtocol::Grpc);
    assert_eq!(config.timeout_ms, 10_000);
    assert_eq!(config.service_name, "unknown_service");
    assert_eq!(config.service_version, None);
    assert_eq!(config.deployment_environment, None);
    assert!(config.extra_resource_attributes.is_empty());
    assert_eq!(config.sampler, Sampler::ParentBasedAlwaysOn);
    assert_eq!(config.bsp_schedule_delay_ms, 5_000);
    assert_eq!(config.bsp_max_batch_size, 512);
    assert_eq!(config.blrp_schedule_delay_ms, 1_000);
    assert_eq!(config.blrp_max_batch_size, 512);
    assert_eq!(config.rust_log, None);
    assert!(!config.dev_logs_to_stdout_override);
}

#[test]
fn from_env_reads_every_variable() {
    let env = EnvSnapshot {
        otel_exporter_otlp_endpoint: Some("  http://otel-collector:4317 ".to_string()),
        otel_exporter_otlp_protocol: Some("HTTP/JSON".to_string()),
        otel_exporter_otlp_timeout: Some("2500".to_string()),
        otel_service_name: Some("hauliage-fleet".to_string()),
        otel_service_version: Some("1.4.0".to_string()),
        deployment_environment: None,
        otel_resource_attributes: Some("deployment.environment=dev,team=logistics".to_string()),
        otel_traces_sampler: Some("traceidratio".to_string()),
        otel_traces_sampler_ratio_bits: Some(0.1_f64.to_bits()),
        otel_bsp_schedule_delay: Some("100".to_string()),
        otel_bsp_max_export_batch_size: Some("64".to_string()),
        otel_blrp_schedule_delay: Some("200".to_string()),
        otel_blrp_max_export_batch_size: Some("32".to_string()),
        rust_log: Some("info,brrtrouter=debug".to_string()),
        brrtr_dev_logs_to_stdout: Some("yes".to_string()),
    };
    let config = ObservabilityConfig::from_env(&env);
    assert_eq!(config.endpoint.as_deref(), Some("http://otel-collector:4317"));
    assert_eq!(config.protocol, OtlpProtocol::HttpJson);
    assert_eq!(config.timeout_ms, 2_500);
    assert_eq!(config.service_name, "hauliage-fleet");
    assert_eq!(config.service_version.as_deref(), Some("1.4.0"));
    assert_eq!(config.deployment_environment.as_deref(), Some("dev"));
    assert_eq!(config.extra_resource_attributes, pairs(&[("team", "logistics")]));
    assert_eq!(config.sampler, Sampler::ParentBasedTraceIdRatio(0.1_f64.to_bits()));
    assert_eq!(config.bsp_schedule_delay_ms, 100);
    assert_eq!(config.bsp_max_batch_size, 64);
    assert_eq!(config.blrp_schedule_delay_ms, 200);
    assert_eq!(config.blrp_max_batch_size, 32);
    assert_eq!(config.rust_log.as_deref(), Some("info,brrtrouter=debug"));
    assert!(config.dev_logs_to_stdout_override);
}

#[test]
fn from_env_blank_endpoint_means_no_endpoint() {
    let mut env = empty_env();
    env.otel_exporter_otlp_endpoint = Some(" \t ".to_string());
    assert_eq!(ObservabilityConfig::from_env(&env).endpoint, None);
    env.otel_exporter_otlp_endpoint = Some(String::new());
    assert_eq!(ObservabilityConfig::from_env(&env).endpoint, None);
}

#[test]
fn from_env_numbers_follow_from_str() {
    let mut env = empty_env();
    for (raw, expected) in [
        ("+250", 250_u64),
        ("007", 7),
        ("18446744073709551615", u64::MAX),
        ("18446744073709551616", 10_000),
        ("-5", 10_000),
        (" 5", 10_000),
        ("5s", 10_000),
        ("+", 10_000),
        ("", 10_000),
    ] {
        env.otel_exporter_otlp_timeout = Some(raw.to_string());
        assert_eq!(
            ObservabilityConfig::from_env(&env).timeout_ms,
            raw.parse::<u64>().unwrap_or(10_000)
        );
        assert_eq!(ObservabilityConfig::from_env(&env).timeout_ms, expected, "{raw:?}");
    }
    env.otel_bsp_max_export_batch_size = Some("1024".to_string());
    assert_eq!(ObservabilityConfig::from_env(&env).bsp_max_batch_size, 1024);
    env.otel_bsp_max_export_batch_size = Some("lots".to_string());
    assert_eq!(ObservabilityConfig::from_env(&env).bsp_max_batch_size, 512);
}

#[test]
fn explicit_deployment_environment_wins_over_resource_attribute() {
    let mut env = empty_env();
    env.deployment_environment = Some("prod".to_string());
    env.otel_resource_attributes =
        Some("deployment.environment=dev,team=x,deployment.environment=qa".to_string());
    let config = ObservabilityConfig::from_env(&env);
    assert_eq!(config.deployment_environment.as_deref(), Some("prod"));
    assert_eq!(config.extra_resource_attributes, pairs(&[("team", "x")]));
}

#[test]
fn deployment_environment_read_from_resource_attributes() {
    let mut env = empty_env();
    env.otel_resource_attributes = Some("deployment.environment=dev".to_string());
    let config = ObservabilityConfig::from_env(&env);
    assert_eq!(config.deployment_environment.as_deref(), Some("dev"));
    assert!(config.extra_resource_attributes.is_empty());

    env.otel_resource_attributes =
        Some("deployment.environment=dev,team=x,deployment.environment=qa".to_string());
    let config = ObservabilityConfig::from_env(&env);
    assert_eq!(config.deployment_environment.as_deref(), Some("qa"));
    assert_eq!(config.extra_resource_attributes, pairs(&[("team", "x")]));

    env.otel_resource_attributes = Some("team=x".to_string());
    let config = ObservabilityConfig::from_env(&env);
    assert_eq!(config.deployment_environment, None);
    assert_eq!(config.extra_resource_attributes, pairs(&[("team", "x")]));
}
