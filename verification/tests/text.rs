use microscaler_observability::text::{
    chars_of, is_white_space_char, normalized_chars, parse_u64_chars, parse_usize_chars,
};
use microscaler_observability::{EnvSnapshot, ObservabilityConfig};

#[test]
fn white_space_matches_std() {
    for code in 0..=0x10FFFF_u32 {
        if let Some(c) = char::from_u32(code) {
            assert_eq!(is_white_space_char(c), c.is_whitespace(), "U+{code:04X}");
        }
    }
}

#[test]
fn trim_matches_std() {
    for s in [
        "",
        "   ",
        "abc",
        "  abc  ",
        "\t\n a b \r\n",
        "\u{a0}\u{3000}x\u{2028}",
        "\u{85}y\u{200b}",
        "ÿ é ",
    ] {
        let env = EnvSnapshot {
            otel_exporter_otlp_endpoint: Some(s.to_string()),
            otel_exporter_otlp_protocol: None,
            otel_exporter_otlp_timeout: None,
            otel_service_name: None,
            otel_service_version: None,
            deployment_environment: None,
            otel_resource_attributes: None,
            otel_traces_sampler: None,
            otel_traces_sampler_ratio_bits: None,
            otel_bsp_schedule_delay: None,
            otel_bsp_max_export_batch_size: None,
            otel_blrp_schedule_delay: None,
            otel_blrp_max_export_batch_size: None,
            rust_log: None,
            brrtr_dev_logs_to_stdout: None,
        };
        let expected = Some(s.trim().to_string()).filter(|t| !t.is_empty());
        assert_eq!(ObservabilityConfig::from_env(&env).endpoint, expected, "{s:?}");
    }
}

#[test]
fn chars_and_normalization() {
    assert_eq!(chars_of("aé😀"), vec!['a', 'é', '😀']);
    let n: String = normalized_chars("  MiXeD Ünïcode\t").into_iter().collect();
    assert_eq!(n, "  MiXeD Ünïcode\t".trim().to_ascii_lowercase());
}

#[test]
fn numbers_match_std() {
    for s in [
        "0", "42", "+42", "-0", "+", "-", "", " 1", "1 ", "1_000", "99999999999999999999",
        "18446744073709551615", "18446744073709551616", "00000000000000000000000001", "١",
    ] {
        let cs: Vec<char> = s.chars().collect();
        assert_eq!(parse_u64_chars(&cs), s.parse::<u64>().ok(), "{s:?}");
        assert_eq!(parse_usize_chars(&cs), s.parse::<usize>().ok(), "{s:?}");
    }
}
