//! Configuration for the observability adapter.
//!
//! Values come from the OpenTelemetry-standard environment variables. Reading
//! the process environment is the caller's part: it hands the raw values over
//! as an [`EnvSnapshot`], and [`ObservabilityConfig::from_env`] turns them into
//! a configuration.
use vstd::prelude::*;

use crate::text::{
    all_ascii_digits, ascii_lowercase, decimal_value, lemma_decimal_value_nonneg, unsigned_digits,
    chars_equal, chars_of, find_char, find_char_index, is_white_space, lacks_char,
    lemma_find_char_first, lemma_find_char_found, lemma_normalize_idempotent,
    lemma_split_on_concat, lemma_split_on_without_sep, lemma_trim_edges, lemma_trim_idempotent,
    lemma_trim_lacks_char, lemma_trim_of_trimmed, normalize, normalized_chars, opt_view,
    pairs_view, parse_u64_chars, parse_unsigned, parse_usize_chars, split_on, string_from_chars,
    trim, trim_bounds, trim_chars, trimmed_range_string,
};

verus! {

/// Protocol for the OTLP exporter connection.
#[derive(Debug, Clone, Copy, PartialEq, Eq, Structural)]
pub enum OtlpProtocol {
    /// OTLP/gRPC over HTTP/2. Default. Port 4317.
    Grpc,
    /// OTLP/HTTP with protobuf body. Port 4318.
    HttpProto,
    /// OTLP/HTTP with JSON body. Port 4318.
    HttpJson,
}

impl Default for OtlpProtocol {
    fn default() -> (r: Self)
        ensures
            r == OtlpProtocol::Grpc,
    {
        OtlpProtocol::Grpc
    }
}

/// Sampler configuration, following the `OTEL_TRACES_SAMPLER` /
/// `OTEL_TRACES_SAMPLER_ARG` conventions.
///
/// The sampling ratio is a floating-point number; it is carried as its
/// IEEE-754 bit pattern (`f64::to_bits`), so that the configuration stays a
/// plain value.
#[derive(Debug, Clone, Copy, PartialEq, Eq, Structural)]
pub enum Sampler {
    /// Always sample, honouring the parent's decision.
    ParentBasedAlwaysOn,
    /// Sample this fraction of root spans (bit pattern of the `f64` ratio);
    /// honour the parent's decision otherwise.
    ParentBasedTraceIdRatio(u64),
    /// Never sample (`always_off`).
    AlwaysOff,
    /// Sample no root span; honour the parent's decision otherwise
    /// (`parentbased_always_off`).
    ParentBasedAlwaysOff,
}

impl Default for Sampler {
    fn default() -> (r: Self)
        ensures
            r == Sampler::ParentBasedAlwaysOn,
    {
        Sampler::ParentBasedAlwaysOn
    }
}

/// Bit pattern of the ratio `1.0`, the sampling ratio used when
/// `OTEL_TRACES_SAMPLER_ARG` is absent or not a number.
pub const RATIO_ONE_BITS: u64 = 0x3FF0_0000_0000_0000;

/// Top-level configuration of the adapter.
#[derive(Debug, Clone)]
pub struct ObservabilityConfig {
    /// OTLP endpoint. If `None`, no OTLP exporter is constructed and the
    /// adapter falls back to a stdout `fmt` layer.
    pub endpoint: Option<String>,
    /// Transport protocol.
    pub protocol: OtlpProtocol,
    /// Per-request timeout of the exporter, in milliseconds.
    pub timeout_ms: u64,
    /// `service.name` resource attribute.
    pub service_name: String,
    /// `service.version` resource attribute.
    pub service_version: Option<String>,
    /// `deployment.environment` resource attribute. Conventionally `dev` /
    /// `staging` / `prod`. Read from `DEPLOYMENT_ENVIRONMENT`, else from the
    /// `deployment.environment` key of `OTEL_RESOURCE_ATTRIBUTES`.
    pub deployment_environment: Option<String>,
    /// Extra resource attributes (`k=v,k=v`) from `OTEL_RESOURCE_ATTRIBUTES`.
    pub extra_resource_attributes: Vec<(String, String)>,
    /// Sampler.
    pub sampler: Sampler,
    /// `BatchSpanProcessor` schedule delay, in milliseconds.
    pub bsp_schedule_delay_ms: u64,
    /// `BatchSpanProcessor` maximum export batch size.
    pub bsp_max_batch_size: usize,
    /// `BatchLogRecordProcessor` schedule delay, in milliseconds.
    pub blrp_schedule_delay_ms: u64,
    /// `BatchLogRecordProcessor` maximum export batch size.
    pub blrp_max_batch_size: usize,
    /// `tracing` log-level filter string.
    pub rust_log: Option<String>,
    /// Forces the stdout fallback even when OTLP is configured.
    pub dev_logs_to_stdout_override: bool,
}

/// Mathematical model of an [`ObservabilityConfig`].
pub struct ConfigView {
    pub endpoint: Option<Seq<char>>,
    pub protocol: OtlpProtocol,
    pub timeout_ms: u64,
    pub service_name: Seq<char>,
    pub service_version: Option<Seq<char>>,
    pub deployment_environment: Option<Seq<char>>,
    pub extra_resource_attributes: Seq<(Seq<char>, Seq<char>)>,
    pub sampler: Sampler,
    pub bsp_schedule_delay_ms: u64,
    pub bsp_max_batch_size: usize,
    pub blrp_schedule_delay_ms: u64,
    pub blrp_max_batch_size: usize,
    pub rust_log: Option<Seq<char>>,
    pub dev_logs_to_stdout_override: bool,
}

impl View for ObservabilityConfig {
    type V = ConfigView;

    open spec fn view(&self) -> ConfigView {
        ConfigView {
            endpoint: opt_view(self.endpoint),
            protocol: self.protocol,
            timeout_ms: self.timeout_ms,
            service_name: self.service_name@,
            service_version: opt_view(self.service_version),
            deployment_environment: opt_view(self.deployment_environment),
            extra_resource_attributes: pairs_view(self.extra_resource_attributes@),
            sampler: self.sampler,
            bsp_schedule_delay_ms: self.bsp_schedule_delay_ms,
            bsp_max_batch_size: self.bsp_max_batch_size,
            blrp_schedule_delay_ms: self.blrp_schedule_delay_ms,
            blrp_max_batch_size: self.blrp_max_batch_size,
            rust_log: opt_view(self.rust_log),
            dev_logs_to_stdout_override: self.dev_logs_to_stdout_override,
        }
    }
}

/// The raw values of the environment variables that the configuration is
/// read from; `None` where a variable is unset (or not valid Unicode).
#[derive(Debug, Clone)]
pub struct EnvSnapshot {
    /// `OTEL_EXPORTER_OTLP_ENDPOINT`.
    pub otel_exporter_otlp_endpoint: Option<String>,
    /// `OTEL_EXPORTER_OTLP_PROTOCOL`.
    pub otel_exporter_otlp_protocol: Option<String>,
    /// `OTEL_EXPORTER_OTLP_TIMEOUT` (milliseconds).
    pub otel_exporter_otlp_timeout: Option<String>,
    /// `OTEL_SERVICE_NAME`.
    pub otel_service_name: Option<String>,
    /// `OTEL_SERVICE_VERSION`.
    pub otel_service_version: Option<String>,
    /// `DEPLOYMENT_ENVIRONMENT`.
    pub deployment_environment: Option<String>,
    /// `OTEL_RESOURCE_ATTRIBUTES`.
    pub otel_resource_attributes: Option<String>,
    /// `OTEL_TRACES_SAMPLER`.
    pub otel_traces_sampler: Option<String>,
    /// `OTEL_TRACES_SAMPLER_ARG` read as a floating-point number, as the
    /// bit pattern of that `f64`; `None` when unset or not a number.
    pub otel_traces_sampler_ratio_bits: Option<u64>,
    /// `OTEL_BSP_SCHEDULE_DELAY` (milliseconds).
    pub otel_bsp_schedule_delay: Option<String>,
    /// `OTEL_BSP_MAX_EXPORT_BATCH_SIZE`.
    pub otel_bsp_max_export_batch_size: Option<String>,
    /// `OTEL_BLRP_SCHEDULE_DELAY` (milliseconds).
    pub otel_blrp_schedule_delay: Option<String>,
    /// `OTEL_BLRP_MAX_EXPORT_BATCH_SIZE`.
    pub otel_blrp_max_export_batch_size: Option<String>,
    /// `RUST_LOG`.
    pub rust_log: Option<String>,
    /// `BRRTR_DEV_LOGS_TO_STDOUT`.
    pub brrtr_dev_logs_to_stdout: Option<String>,
}

/// Mathematical model of an [`EnvSnapshot`].
pub struct EnvView {
    pub otel_exporter_otlp_endpoint: Option<Seq<char>>,
    pub otel_exporter_otlp_protocol: Option<Seq<char>>,
    pub otel_exporter_otlp_timeout: Option<Seq<char>>,
    pub otel_service_name: Option<Seq<char>>,
    pub otel_service_version: Option<Seq<char>>,
    pub deployment_environment: Option<Seq<char>>,
    pub otel_resource_attributes: Option<Seq<char>>,
    pub otel_traces_sampler: Option<Seq<char>>,
    pub otel_traces_sampler_ratio_bits: Option<u64>,
    pub otel_bsp_schedule_delay: Option<Seq<char>>,
    pub otel_bsp_max_export_batch_size: Option<Seq<char>>,
    pub otel_blrp_schedule_delay: Option<Seq<char>>,
    pub otel_blrp_max_export_batch_size: Option<Seq<char>>,
    pub rust_log: Option<Seq<char>>,
    pub brrtr_dev_logs_to_stdout: Option<Seq<char>>,
}

impl View for EnvSnapshot {
    type V = EnvView;

    open spec fn view(&self) -> EnvView {
        EnvView {
            otel_exporter_otlp_endpoint: opt_view(self.otel_exporter_otlp_endpoint),
            otel_exporter_otlp_protocol: opt_view(self.otel_exporter_otlp_protocol),
            otel_exporter_otlp_timeout: opt_view(self.otel_exporter_otlp_timeout),
            otel_service_name: opt_view(self.otel_service_name),
            otel_service_version: opt_view(self.otel_service_version),
            deployment_environment: opt_view(self.deployment_environment),
            otel_resource_attributes: opt_view(self.otel_resource_attributes),
            otel_traces_sampler: opt_view(self.otel_traces_sampler),
            otel_traces_sampler_ratio_bits: self.otel_traces_sampler_ratio_bits,
            otel_bsp_schedule_delay: opt_view(self.otel_bsp_schedule_delay),
            otel_bsp_max_export_batch_size: opt_view(self.otel_bsp_max_export_batch_size),
            otel_blrp_schedule_delay: opt_view(self.otel_blrp_schedule_delay),
            otel_blrp_max_export_batch_size: opt_view(self.otel_blrp_max_export_batch_size),
            rust_log: opt_view(self.rust_log),
            brrtr_dev_logs_to_stdout: opt_view(self.brrtr_dev_logs_to_stdout),
        }
    }
}

// ---------------------------------------------------------------------------
// Specification of the parsers
// ---------------------------------------------------------------------------

/// The view of an optional string slice.
pub open spec fn opt_str_view(o: Option<&str>) -> Option<Seq<char>> {
    match o {
        Some(s) => Some(s@),
        None => None,
    }
}

/// The protocol that an `OTEL_EXPORTER_OTLP_PROTOCOL` value selects.
pub open spec fn protocol_spec(raw: Option<Seq<char>>) -> OtlpProtocol {
    match raw {
        None => OtlpProtocol::Grpc,
        Some(s) => {
            let n = normalize(s);
            if n == "http/protobuf"@ || n == "http_proto"@ || n == "http-proto"@ {
                OtlpProtocol::HttpProto
            } else if n == "http/json"@ || n == "http-json"@ {
                OtlpProtocol::HttpJson
            } else {
                OtlpProtocol::Grpc
            }
        },
    }
}

/// The attribute that one comma-separated piece of `OTEL_RESOURCE_ATTRIBUTES`
/// contributes: the trimmed text before the first `=` and the trimmed text
/// after it; nothing when the trimmed piece holds no `=`.
pub open spec fn attribute_of_piece(p: Seq<char>) -> Option<(Seq<char>, Seq<char>)> {
    let t = trim(p);
    match find_char(t, '=') {
        Some(i) => Some((trim(t.take(i)), trim(t.skip(i + 1)))),
        None => None,
    }
}

/// The attributes of a list of pieces, in order.
pub open spec fn attributes_of_pieces(ps: Seq<Seq<char>>) -> Seq<(Seq<char>, Seq<char>)>
    decreases ps.len(),
{
    if ps.len() == 0 {
        Seq::empty()
    } else {
        let prev = attributes_of_pieces(ps.drop_last());
        match attribute_of_piece(ps.last()) {
            Some(kv) => prev.push(kv),
            None => prev,
        }
    }
}

/// The attributes that an `OTEL_RESOURCE_ATTRIBUTES` value (`k=v,k=v`)
/// describes.
pub open spec fn resource_attributes_spec(raw: Option<Seq<char>>) -> Seq<(Seq<char>, Seq<char>)> {
    match raw {
        None => Seq::empty(),
        Some(s) => attributes_of_pieces(split_on(s, ',')),
    }
}

/// The sampler that `OTEL_TRACES_SAMPLER` and the ratio read from
/// `OTEL_TRACES_SAMPLER_ARG` select.
pub open spec fn sampler_spec(name: Option<Seq<char>>, ratio_bits: Option<u64>) -> Sampler {
    match name {
        None => Sampler::ParentBasedAlwaysOn,
        Some(s) => {
            let n = normalize(s);
            if n == "always_off"@ {
                Sampler::AlwaysOff
            } else if n == "parentbased_always_off"@ {
                Sampler::ParentBasedAlwaysOff
            } else if n == "traceidratio"@ || n == "parentbased_traceidratio"@ {
                Sampler::ParentBasedTraceIdRatio(
                    match ratio_bits {
                        Some(b) => b,
                        None => RATIO_ONE_BITS,
                    },
                )
            } else {
                Sampler::ParentBasedAlwaysOn
            }
        },
    }
}

/// Whether a `BRRTR_DEV_LOGS_TO_STDOUT` value switches the override on.
pub open spec fn dev_override_spec(raw: Option<Seq<char>>) -> bool {
    match raw {
        None => false,
        Some(s) => {
            let n = normalize(s);
            n == "1"@ || n == "true"@ || n == "yes"@ || n == "on"@
        },
    }
}

/// The endpoint that an `OTEL_EXPORTER_OTLP_ENDPOINT` value gives: trimmed,
/// and absent when nothing but white space is left.
pub open spec fn endpoint_spec(raw: Option<Seq<char>>) -> Option<Seq<char>> {
    match raw {
        Some(s) => if trim(s).len() > 0 {
            Some(trim(s))
        } else {
            None
        },
        None => None,
    }
}

/// A `u64` setting: the value parsed as `u64`, else `default`.
pub open spec fn u64_setting(raw: Option<Seq<char>>, default: u64) -> u64 {
    match raw {
        Some(s) => match parse_unsigned(s, u64::MAX as int) {
            Some(v) => v as u64,
            None => default,
        },
        None => default,
    }
}

/// A `usize` setting: the value parsed as `usize`, else `default`.
pub open spec fn usize_setting(raw: Option<Seq<char>>, default: usize) -> usize {
    match raw {
        Some(s) => match parse_unsigned(s, usize::MAX as int) {
            Some(v) => v as usize,
            None => default,
        },
        None => default,
    }
}

/// `attrs` without the entries whose key is `key`, order kept.
pub open spec fn without_key(attrs: Seq<(Seq<char>, Seq<char>)>, key: Seq<char>) -> Seq<
    (Seq<char>, Seq<char>),
>
    decreases attrs.len(),
{
    if attrs.len() == 0 {
        attrs
    } else {
        let prev = without_key(attrs.drop_last(), key);
        if attrs.last().0 == key {
            prev
        } else {
            prev.push(attrs.last())
        }
    }
}

/// The value of the last entry of `attrs` whose key is `key`, if any.
pub open spec fn last_value_of(attrs: Seq<(Seq<char>, Seq<char>)>, key: Seq<char>) -> Option<
    Seq<char>,
>
    decreases attrs.len(),
{
    if attrs.len() == 0 {
        None
    } else if attrs.last().0 == key {
        Some(attrs.last().1)
    } else {
        last_value_of(attrs.drop_last(), key)
    }
}

/// The configuration that the environment `e` describes. The deployment
/// environment comes from `DEPLOYMENT_ENVIRONMENT`, else from the (last)
/// `deployment.environment` entry of `OTEL_RESOURCE_ATTRIBUTES`; that key is
/// never kept among the extra attributes, so the resource carries it once.
pub open spec fn config_from_env(e: EnvView) -> ConfigView {
    let attrs = resource_attributes_spec(e.otel_resource_attributes);
    ConfigView {
        endpoint: endpoint_spec(e.otel_exporter_otlp_endpoint),
        protocol: protocol_spec(e.otel_exporter_otlp_protocol),
        timeout_ms: u64_setting(e.otel_exporter_otlp_timeout, 10_000),
        service_name: match e.otel_service_name {
            Some(s) => s,
            None => "unknown_service"@,
        },
        service_version: e.otel_service_version,
        deployment_environment: match e.deployment_environment {
            Some(d) => Some(d),
            None => last_value_of(attrs, "deployment.environment"@),
        },
        extra_resource_attributes: without_key(attrs, "deployment.environment"@),
        sampler: sampler_spec(e.otel_traces_sampler, e.otel_traces_sampler_ratio_bits),
        bsp_schedule_delay_ms: u64_setting(e.otel_bsp_schedule_delay, 5_000),
        bsp_max_batch_size: usize_setting(e.otel_bsp_max_export_batch_size, 512),
        blrp_schedule_delay_ms: u64_setting(e.otel_blrp_schedule_delay, 1_000),
        blrp_max_batch_size: usize_setting(e.otel_blrp_max_export_batch_size, 512),
        rust_log: e.rust_log,
        dev_logs_to_stdout_override: dev_override_spec(e.brrtr_dev_logs_to_stdout),
    }
}

/// The default configuration: no endpoint, gRPC, the parent-based always-on
/// sampler, zero durations and sizes, empty strings and lists.
pub open spec fn default_config() -> ConfigView {
    ConfigView {
        endpoint: None,
        protocol: OtlpProtocol::Grpc,
        timeout_ms: 0,
        service_name: Seq::empty(),
        service_version: None,
        deployment_environment: None,
        extra_resource_attributes: Seq::empty(),
        sampler: Sampler::ParentBasedAlwaysOn,
        bsp_schedule_delay_ms: 0,
        bsp_max_batch_size: 0,
        blrp_schedule_delay_ms: 0,
        blrp_max_batch_size: 0,
        rust_log: None,
        dev_logs_to_stdout_override: false,
    }
}

/// `c` with the service name `name`.
pub open spec fn set_service_name(c: ConfigView, name: Seq<char>) -> ConfigView {
    ConfigView { service_name: name, ..c }
}

/// `c` with the service version `version`.
pub open spec fn set_service_version(c: ConfigView, version: Seq<char>) -> ConfigView {
    ConfigView { service_version: Some(version), ..c }
}

/// `c` with the deployment environment `env`.
pub open spec fn set_deployment_environment(c: ConfigView, env: Seq<char>) -> ConfigView {
    ConfigView { deployment_environment: Some(env), ..c }
}

/// `c` with the sampler `sampler`.
pub open spec fn set_sampler(c: ConfigView, sampler: Sampler) -> ConfigView {
    ConfigView { sampler, ..c }
}

// ---------------------------------------------------------------------------
// Parsers
// ---------------------------------------------------------------------------

/// Reads an `OTEL_EXPORTER_OTLP_PROTOCOL` value; unknown or absent values
/// select gRPC.
pub fn parse_otlp_protocol(raw: Option<&str>) -> (r: OtlpProtocol)
    ensures
        r == protocol_spec(opt_str_view(raw)),
{
    let s = match raw {
        Some(s) => s,
        None => {
            return OtlpProtocol::Grpc;
        },
    };
    let n = normalized_chars(s);
    if chars_equal(&n, "http/protobuf") || chars_equal(&n, "http_proto") || chars_equal(
        &n,
        "http-proto",
    ) {
        OtlpProtocol::HttpProto
    } else if chars_equal(&n, "http/json") || chars_equal(&n, "http-json") {
        OtlpProtocol::HttpJson
    } else {
        OtlpProtocol::Grpc
    }
}

/// Appends the attribute of the piece `piece`, if it has one.
fn push_attribute(out: &mut Vec<(String, String)>, piece: &Vec<char>)
    ensures
        pairs_view(final(out)@) == match attribute_of_piece(piece@) {
            Some(kv) => pairs_view(old(out)@).push(kv),
            None => pairs_view(old(out)@),
        },
{
    let t = trim_chars(piece);
    match find_char_index(&t, '=') {
        Some(k) => {
            let key = trimmed_range_string(&t, 0, k);
            let value = trimmed_range_string(&t, k + 1, t.len());
            assert(t@.subrange(0, k as int) =~= t@.take(k as int));
            assert(t@.subrange(k + 1, t@.len() as int) =~= t@.skip(k + 1));
            let ghost before = out@;
            out.push((key, value));
            assert(pairs_view(out@) =~= pairs_view(before).push((key@, value@)));
        },
        None => {},
    }
}

/// Reads an `OTEL_RESOURCE_ATTRIBUTES` value (`k=v,k=v`): comma-separated
/// pieces, each trimmed; empty pieces and pieces without `=` are skipped; the
/// key is the text before the first `=`, the value the text after it, both
/// trimmed.
pub fn parse_otel_resource_attributes(raw: Option<&str>) -> (r: Vec<(String, String)>)
    ensures
        pairs_view(r@) == resource_attributes_spec(opt_str_view(raw)),
{
    let raw = match raw {
        Some(s) => s,
        None => {
            let empty: Vec<(String, String)> = Vec::new();
            assert(pairs_view(empty@) =~= Seq::empty());
            return empty;
        },
    };
    let cs = chars_of(raw);
    let mut out: Vec<(String, String)> = Vec::new();
    let mut piece: Vec<char> = Vec::new();
    let mut i: usize = 0;
    assert(pairs_view(out@) =~= Seq::empty());
    assert(cs@.take(0) =~= Seq::<char>::empty());
    while i < cs.len()
        invariant
            i <= cs.len(),
            cs@ == raw@,
            split_on(cs@.take(i as int), ',').len() >= 1,
            piece@ == split_on(cs@.take(i as int), ',').last(),
            pairs_view(out@) == attributes_of_pieces(split_on(cs@.take(i as int), ',').drop_last()),
        decreases cs.len() - i,
    {
        let ghost parts = split_on(cs@.take(i as int), ',');
        assert(cs@.take(i + 1).drop_last() =~= cs@.take(i as int));
        assert(cs@.take(i + 1).last() == cs@[i as int]);
        let c = cs[i];
        if c == ',' {
            push_attribute(&mut out, &piece);
            piece = Vec::new();
            let ghost next = parts.push(Seq::empty());
            assert(next.drop_last() =~= parts);
            assert(piece@ =~= next.last());
        } else {
            piece.push(c);
            let ghost next = parts.update(parts.len() - 1, parts.last().push(c));
            assert(next.drop_last() =~= parts.drop_last());
        }
        i += 1;
    }
    assert(cs@.take(cs.len() as int) =~= cs@);
    push_attribute(&mut out, &piece);
    out
}

/// Reads `OTEL_TRACES_SAMPLER`, with the ratio read from
/// `OTEL_TRACES_SAMPLER_ARG` (bit pattern of the `f64`, `None` when absent or
/// not a number); unknown or absent names select the parent-based always-on
/// sampler.
pub fn parse_otel_traces_sampler(name: Option<&str>, ratio_bits: Option<u64>) -> (r: Sampler)
    ensures
        r == sampler_spec(opt_str_view(name), ratio_bits),
{
    let s = match name {
        Some(s) => s,
        None => {
            return Sampler::ParentBasedAlwaysOn;
        },
    };
    let n = normalized_chars(s);
    if chars_equal(&n, "always_off") {
        Sampler::AlwaysOff
    } else if chars_equal(&n, "parentbased_always_off") {
        Sampler::ParentBasedAlwaysOff
    } else if chars_equal(&n, "traceidratio") || chars_equal(&n, "parentbased_traceidratio") {
        let bits = match ratio_bits {
            Some(b) => b,
            None => RATIO_ONE_BITS,
        };
        Sampler::ParentBasedTraceIdRatio(bits)
    } else {
        Sampler::ParentBasedAlwaysOn
    }
}

/// Reads `BRRTR_DEV_LOGS_TO_STDOUT`: `1`, `true`, `yes` or `on` (trimmed,
/// any ASCII case) switch the override on.
pub fn parse_dev_logs_to_stdout(raw: Option<&str>) -> (r: bool)
    ensures
        r == dev_override_spec(opt_str_view(raw)),
{
    match raw {
        Some(s) => {
            let n = normalized_chars(s);
            chars_equal(&n, "1") || chars_equal(&n, "true") || chars_equal(&n, "yes")
                || chars_equal(&n, "on")
        },
        None => false,
    }
}

/// Reads `OTEL_EXPORTER_OTLP_ENDPOINT`: trimmed, absent when empty.
fn parse_endpoint(raw: &Option<String>) -> (r: Option<String>)
    ensures
        opt_view(r) == endpoint_spec(opt_view(*raw)),
{
    match raw {
        Some(s) => {
            let cs = chars_of(s.as_str());
            let (lo, hi) = trim_bounds(&cs);
            if lo < hi {
                Some(string_from_chars(&cs, lo, hi))
            } else {
                None
            }
        },
        None => None,
    }
}

/// A `u64` setting, `default` when absent or not a `u64`.
fn u64_or(raw: &Option<String>, default: u64) -> (r: u64)
    ensures
        r == u64_setting(opt_view(*raw), default),
{
    match raw {
        Some(s) => match parse_u64_chars(&chars_of(s.as_str())) {
            Some(v) => v,
            None => default,
        },
        None => default,
    }
}

/// A `usize` setting, `default` when absent or not a `usize`.
fn usize_or(raw: &Option<String>, default: usize) -> (r: usize)
    ensures
        r == usize_setting(opt_view(*raw), default),
{
    match raw {
        Some(s) => match parse_usize_chars(&chars_of(s.as_str())) {
            Some(v) => v,
            None => default,
        },
        None => default,
    }
}

/// `attrs` without the entries whose key is `key`.
fn retain_other_keys(attrs: Vec<(String, String)>, key: &str) -> (r: Vec<(String, String)>)
    ensures
        pairs_view(r@) == without_key(pairs_view(attrs@), key@),
{
    let key_string = key.to_owned();
    let mut out: Vec<(String, String)> = Vec::new();
    let mut i: usize = 0;
    assert(pairs_view(attrs@).take(0) =~= Seq::<(Seq<char>, Seq<char>)>::empty());
    assert(pairs_view(out@) =~= Seq::empty());
    while i < attrs.len()
        invariant
            i <= attrs.len(),
            key_string@ == key@,
            pairs_view(out@) == without_key(pairs_view(attrs@).take(i as int), key@),
        decreases attrs.len() - i,
    {
        let ghost pv = pairs_view(attrs@);
        assert(pv.take(i + 1).drop_last() =~= pv.take(i as int));
        assert(pv.take(i + 1).last() == (attrs@[i as int].0@, attrs@[i as int].1@));
        let same = attrs[i].0 == key_string;
        if !same {
            let ghost before = out@;
            let kv = (attrs[i].0.clone(), attrs[i].1.clone());
            out.push(kv);
            assert(pairs_view(out@) =~= pairs_view(before).push(pv[i as int]));
        }
        i += 1;
    }
    assert(pairs_view(attrs@).take(attrs.len() as int) =~= pairs_view(attrs@));
    out
}

/// The value of the last entry of `attrs` whose key is `key`, if any.
fn last_value_of_key(attrs: &Vec<(String, String)>, key: &str) -> (r: Option<String>)
    ensures
        opt_view(r) == last_value_of(pairs_view(attrs@), key@),
{
    let key_string = key.to_owned();
    let mut found: Option<String> = None;
    let mut i: usize = 0;
    assert(pairs_view(attrs@).take(0) =~= Seq::<(Seq<char>, Seq<char>)>::empty());
    while i < attrs.len()
        invariant
            i <= attrs.len(),
            key_string@ == key@,
            opt_view(found) == last_value_of(pairs_view(attrs@).take(i as int), key@),
        decreases attrs.len() - i,
    {
        let ghost pv = pairs_view(attrs@);
        assert(pv.take(i + 1).drop_last() =~= pv.take(i as int));
        assert(pv.take(i + 1).last() == (attrs@[i as int].0@, attrs@[i as int].1@));
        if attrs[i].0 == key_string {
            found = Some(attrs[i].1.clone());
        }
        i += 1;
    }
    assert(pairs_view(attrs@).take(attrs.len() as int) =~= pairs_view(attrs@));
    found
}

/// A copy of an optional string.
fn clone_opt(o: &Option<String>) -> (r: Option<String>)
    ensures
        opt_view(r) == opt_view(*o),
{
    match o {
        Some(s) => Some(s.clone()),
        None => None,
    }
}

/// An optional string as an optional string slice.
fn as_opt_str(o: &Option<String>) -> (r: Option<&str>)
    ensures
        opt_str_view(r) == opt_view(*o),
{
    match o {
        Some(s) => Some(s.as_str()),
        None => None,
    }
}

impl ObservabilityConfig {
    /// The configuration that the environment variables in `env` describe,
    /// per the OpenTelemetry specification.
    pub fn from_env(env: &EnvSnapshot) -> (r: Self)
        ensures
            r@ == config_from_env(env@),
    {
        let endpoint = parse_endpoint(&env.otel_exporter_otlp_endpoint);
        let protocol = parse_otlp_protocol(as_opt_str(&env.otel_exporter_otlp_protocol));
        let timeout_ms = u64_or(&env.otel_exporter_otlp_timeout, 10_000);
        let service_name = match &env.otel_service_name {
            Some(s) => s.clone(),
            None => "unknown_service".to_owned(),
        };
        let service_version = clone_opt(&env.otel_service_version);
        let attributes = parse_otel_resource_attributes(as_opt_str(&env.otel_resource_attributes));
        // DEPLOYMENT_ENVIRONMENT wins over a `deployment.environment` resource
        // attribute; either way the key leaves the extra attributes.
        let deployment_environment = match &env.deployment_environment {
            Some(d) => Some(d.clone()),
            None => last_value_of_key(&attributes, "deployment.environment"),
        };
        let extra_resource_attributes = retain_other_keys(attributes, "deployment.environment");
        let sampler = parse_otel_traces_sampler(
            as_opt_str(&env.otel_traces_sampler),
            env.otel_traces_sampler_ratio_bits,
        );
        let bsp_schedule_delay_ms = u64_or(&env.otel_bsp_schedule_delay, 5_000);
        let bsp_max_batch_size = usize_or(&env.otel_bsp_max_export_batch_size, 512);
        let blrp_schedule_delay_ms = u64_or(&env.otel_blrp_schedule_delay, 1_000);
        let blrp_max_batch_size = usize_or(&env.otel_blrp_max_export_batch_size, 512);
        let rust_log = clone_opt(&env.rust_log);
        let dev_logs_to_stdout_override = parse_dev_logs_to_stdout(
            as_opt_str(&env.brrtr_dev_logs_to_stdout),
        );
        ObservabilityConfig {
            endpoint,
            protocol,
            timeout_ms,
            service_name,
            service_version,
            deployment_environment,
            extra_resource_attributes,
            sampler,
            bsp_schedule_delay_ms,
            bsp_max_batch_size,
            blrp_schedule_delay_ms,
            blrp_max_batch_size,
            rust_log,
            dev_logs_to_stdout_override,
        }
    }

    /// Overrides the service name.
    pub fn with_service_name(self, name: &str) -> (r: Self)
        ensures
            r@ == set_service_name(self@, name@),
    {
        let mut c = self;
        c.service_name = name.to_owned();
        c
    }

    /// Overrides the service version.
    pub fn with_service_version(self, version: &str) -> (r: Self)
        ensures
            r@ == set_service_version(self@, version@),
    {
        let mut c = self;
        c.service_version = Some(version.to_owned());
        c
    }

    /// Overrides the deployment environment (`dev` / `staging` / `prod`).
    pub fn with_deployment_environment(self, env: &str) -> (r: Self)
        ensures
            r@ == set_deployment_environment(self@, env@),
    {
        let mut c = self;
        c.deployment_environment = Some(env.to_owned());
        c
    }

    /// Overrides the sampler.
    pub fn with_sampler(self, sampler: Sampler) -> (r: Self)
        ensures
            r@ == set_sampler(self@, sampler),
    {
        let mut c = self;
        c.sampler = sampler;
        c
    }
}

impl Default for ObservabilityConfig {
    fn default() -> (r: Self)
        ensures
            r@ == default_config(),
    {
        let r = ObservabilityConfig {
            endpoint: None,
            protocol: OtlpProtocol::Grpc,
            timeout_ms: 0,
            service_name: String::new(),
            service_version: None,
            deployment_environment: None,
            extra_resource_attributes: Vec::new(),
            sampler: Sampler::ParentBasedAlwaysOn,
            bsp_schedule_delay_ms: 0,
            bsp_max_batch_size: 0,
            blrp_schedule_delay_ms: 0,
            blrp_max_batch_size: 0,
            rust_log: None,
            dev_logs_to_stdout_override: false,
        };
        assert(pairs_view(r.extra_resource_attributes@) =~= Seq::empty());
        r
    }
}

// ---------------------------------------------------------------------------
// Laws
// ---------------------------------------------------------------------------

/// Builders that set different fields commute: the order in which they are
/// chained does not matter.
pub proof fn law_builders_on_different_fields_commute(
    c: ConfigView,
    name: Seq<char>,
    version: Seq<char>,
    env: Seq<char>,
    sampler: Sampler,
)
    ensures
        set_service_version(set_service_name(c, name), version) == set_service_name(
            set_service_version(c, version),
            name,
        ),
        set_deployment_environment(set_service_name(c, name), env) == set_service_name(
            set_deployment_environment(c, env),
            name,
        ),
        set_sampler(set_service_name(c, name), sampler) == set_service_name(
            set_sampler(c, sampler),
            name,
        ),
        set_deployment_environment(set_service_version(c, version), env)
            == set_service_version(set_deployment_environment(c, env), version),
        set_sampler(set_service_version(c, version), sampler) == set_service_version(
            set_sampler(c, sampler),
            version,
        ),
        set_sampler(set_deployment_environment(c, env), sampler) == set_deployment_environment(
            set_sampler(c, sampler),
            env,
        ),
{
}

/// Setting the same field twice keeps the second value only.
pub proof fn law_builder_last_write_wins(
    c: ConfigView,
    a: Seq<char>,
    b: Seq<char>,
    s1: Sampler,
    s2: Sampler,
)
    ensures
        set_service_name(set_service_name(c, a), b) == set_service_name(c, b),
        set_service_version(set_service_version(c, a), b) == set_service_version(c, b),
        set_deployment_environment(set_deployment_environment(c, a), b)
            == set_deployment_environment(c, b),
        set_sampler(set_sampler(c, s1), s2) == set_sampler(c, s2),
{
}

/// Keyword settings (`OTEL_EXPORTER_OTLP_PROTOCOL`, `OTEL_TRACES_SAMPLER`,
/// `BRRTR_DEV_LOGS_TO_STDOUT`) ignore surrounding white space and ASCII case:
/// a value reads the same as its trimmed, lower-cased form.
pub proof fn law_keywords_ignore_padding_and_case(s: Seq<char>, ratio_bits: Option<u64>)
    ensures
        protocol_spec(Some(s)) == protocol_spec(Some(normalize(s))),
        sampler_spec(Some(s), ratio_bits) == sampler_spec(Some(normalize(s)), ratio_bits),
        dev_override_spec(Some(s)) == dev_override_spec(Some(normalize(s))),
{
    lemma_normalize_idempotent(s);
}

/// No entry of `without_key(attrs, key)` has the key `key`.
proof fn lemma_without_key_drops(attrs: Seq<(Seq<char>, Seq<char>)>, key: Seq<char>)
    ensures
        forall|i: int|
            0 <= i < without_key(attrs, key).len() ==> #[trigger] without_key(attrs, key)[i].0
                != key,
    decreases attrs.len(),
{
    if attrs.len() > 0 {
        lemma_without_key_drops(attrs.drop_last(), key);
        let prev = without_key(attrs.drop_last(), key);
        let w = without_key(attrs, key);
        assert forall|i: int| 0 <= i < w.len() implies #[trigger] w[i].0 != key by {
            if i < prev.len() {
                assert(w[i] == prev[i]);
            }
        }
    }
}

/// No extra resource attribute read from the environment carries the key
/// `deployment.environment`: that key is read into the deployment
/// environment (where `DEPLOYMENT_ENVIRONMENT` wins over it).
pub proof fn law_extra_attributes_never_carry_deployment_environment(e: EnvView)
    ensures
        forall|i: int|
            0 <= i < config_from_env(e).extra_resource_attributes.len()
                ==> #[trigger] config_from_env(e).extra_resource_attributes[i].0
                != "deployment.environment"@,
{
    lemma_without_key_drops(
        resource_attributes_spec(e.otel_resource_attributes),
        "deployment.environment"@,
    );
}

/// An endpoint read from the environment is never empty and carries no
/// surrounding white space.
pub proof fn law_endpoint_from_env_is_trimmed(e: EnvView)
    ensures
        config_from_env(e).endpoint matches Some(x) ==> x.len() > 0 && trim(x) == x,
{
    if let Some(s) = e.otel_exporter_otlp_endpoint {
        lemma_trim_idempotent(s);
    }
}

/// The `key=value` text of one attribute.
pub open spec fn attribute_text(kv: (Seq<char>, Seq<char>)) -> Seq<char> {
    kv.0 + seq!['='] + kv.1
}

/// The `OTEL_RESOURCE_ATTRIBUTES` text (`k=v,k=v`) of a list of attributes.
pub open spec fn attributes_text(attrs: Seq<(Seq<char>, Seq<char>)>) -> Seq<char>
    decreases attrs.len(),
{
    if attrs.len() == 0 {
        Seq::empty()
    } else if attrs.len() == 1 {
        attribute_text(attrs[0])
    } else {
        attributes_text(attrs.drop_last()) + seq![','] + attribute_text(attrs.last())
    }
}

/// An attribute that survives being written as `key=value`: key and value
/// carry no surrounding white space and no `,`, and the key holds no `=`.
pub open spec fn plain_attribute(kv: (Seq<char>, Seq<char>)) -> bool {
    &&& trim(kv.0) == kv.0
    &&& trim(kv.1) == kv.1
    &&& lacks_char(kv.0, ',')
    &&& lacks_char(kv.0, '=')
    &&& lacks_char(kv.1, ',')
}

/// Every entry read from `OTEL_RESOURCE_ATTRIBUTES` is a plain attribute
/// with a trimmed key and value, and a key without `=`.
pub proof fn law_resource_attribute_entries_are_trimmed(raw: Seq<char>)
    ensures
        forall|i: int|
            0 <= i < resource_attributes_spec(Some(raw)).len() ==> {
                let kv = #[trigger] resource_attributes_spec(Some(raw))[i];
                &&& trim(kv.0) == kv.0
                &&& trim(kv.1) == kv.1
                &&& lacks_char(kv.0, '=')
            },
{
    lemma_entries_trimmed(split_on(raw, ','));
}

proof fn lemma_entries_trimmed(ps: Seq<Seq<char>>)
    ensures
        forall|i: int|
            0 <= i < attributes_of_pieces(ps).len() ==> {
                let kv = #[trigger] attributes_of_pieces(ps)[i];
                &&& trim(kv.0) == kv.0
                &&& trim(kv.1) == kv.1
                &&& lacks_char(kv.0, '=')
            },
    decreases ps.len(),
{
    if ps.len() > 0 {
        lemma_entries_trimmed(ps.drop_last());
        let prev = attributes_of_pieces(ps.drop_last());
        let all = attributes_of_pieces(ps);
        let t = trim(ps.last());
        lemma_find_char_found(t, '=');
        if let Some(j) = find_char(t, '=') {
            lemma_trim_idempotent(t.take(j));
            lemma_trim_idempotent(t.skip(j + 1));
            lemma_trim_lacks_char(t.take(j), '=');
        }
        assert forall|i: int| 0 <= i < all.len() implies {
            let kv = #[trigger] all[i];
            &&& trim(kv.0) == kv.0
            &&& trim(kv.1) == kv.1
            &&& lacks_char(kv.0, '=')
        } by {
            if i < prev.len() {
                assert(all[i] == prev[i]);
            }
        }
    }
}

/// A plain attribute reads back as itself from its `key=value` text.
proof fn lemma_attribute_text_reads_back(kv: (Seq<char>, Seq<char>))
    requires
        plain_attribute(kv),
    ensures
        attribute_of_piece(attribute_text(kv)) == Some(kv),
        lacks_char(attribute_text(kv), ','),
{
    let (k, v) = kv;
    let p = attribute_text(kv);
    lemma_trim_edges(k);
    lemma_trim_edges(v);
    assert(p[k.len() as int] == '=');
    assert(p.len() > 0);
    assert(!is_white_space('='));
    if k.len() > 0 {
        assert(p[0] == k[0]);
    }
    if v.len() > 0 {
        assert(p.last() == v.last());
    }
    lemma_trim_of_trimmed(p);
    assert(p.take(k.len() as int) =~= k);
    assert(p.skip(k.len() + 1 as int) =~= v);
    lemma_find_char_first(p, '=', k.len() as int);
    assert forall|i: int| 0 <= i < p.len() implies p[i] != ',' by {
        if i < k.len() {
            assert(p[i] == k[i]);
        } else if i > k.len() {
            assert(p[i] == v[i - k.len() - 1]);
        }
    }
}

/// The pieces of a list's text are the texts of its attributes.
proof fn lemma_attributes_text_pieces(attrs: Seq<(Seq<char>, Seq<char>)>)
    requires
        attrs.len() > 0,
        forall|i: int| 0 <= i < attrs.len() ==> plain_attribute(#[trigger] attrs[i]),
    ensures
        split_on(attributes_text(attrs), ',') == attrs.map_values(
            |kv: (Seq<char>, Seq<char>)| attribute_text(kv),
        ),
    decreases attrs.len(),
{
    let last = attrs.last();
    lemma_attribute_text_reads_back(last);
    lemma_split_on_without_sep(attribute_text(last), ',');
    if attrs.len() == 1 {
        assert(attrs.map_values(|kv: (Seq<char>, Seq<char>)| attribute_text(kv)) =~= seq![
            attribute_text(last),
        ]);
    } else {
        let init = attrs.drop_last();
        assert forall|i: int| 0 <= i < init.len() implies plain_attribute(#[trigger] init[i]) by {
            assert(init[i] == attrs[i]);
        }
        lemma_attributes_text_pieces(init);
        lemma_split_on_concat(attributes_text(init), attribute_text(last), ',');
        assert(attrs.map_values(|kv: (Seq<char>, Seq<char>)| attribute_text(kv)) =~= init.map_values(
            |kv: (Seq<char>, Seq<char>)| attribute_text(kv),
        ) + seq![attribute_text(last)]);
    }
}

/// Reading the texts of plain attributes gives the attributes back.
proof fn lemma_pieces_read_back(attrs: Seq<(Seq<char>, Seq<char>)>)
    requires
        forall|i: int| 0 <= i < attrs.len() ==> plain_attribute(#[trigger] attrs[i]),
    ensures
        attributes_of_pieces(attrs.map_values(|kv: (Seq<char>, Seq<char>)| attribute_text(kv)))
            == attrs,
    decreases attrs.len(),
{
    let ps = attrs.map_values(|kv: (Seq<char>, Seq<char>)| attribute_text(kv));
    if attrs.len() > 0 {
        let init = attrs.drop_last();
        assert forall|i: int| 0 <= i < init.len() implies plain_attribute(#[trigger] init[i]) by {
            assert(init[i] == attrs[i]);
        }
        lemma_pieces_read_back(init);
        assert(ps.drop_last() =~= init.map_values(|kv: (Seq<char>, Seq<char>)| attribute_text(kv)));
        lemma_attribute_text_reads_back(attrs.last());
        assert(init.push(attrs.last()) =~= attrs);
    } else {
        assert(ps.len() == 0);
    }
}

/// Writing plain attributes as an `OTEL_RESOURCE_ATTRIBUTES` text
/// (`k=v,k=v`) and reading that text gives the same attributes back, in the
/// same order.
pub proof fn law_resource_attributes_round_trip(attrs: Seq<(Seq<char>, Seq<char>)>)
    requires
        forall|i: int| 0 <= i < attrs.len() ==> plain_attribute(#[trigger] attrs[i]),
    ensures
        resource_attributes_spec(Some(attributes_text(attrs))) == attrs,
{
    if attrs.len() > 0 {
        lemma_attributes_text_pieces(attrs);
        lemma_pieces_read_back(attrs);
    } else {
        let empty: Seq<char> = Seq::empty();
        assert(split_on(empty, ',') == seq![empty]);
        assert(attribute_of_piece(empty) is None) by {
            assert(trim(empty) =~= empty);
        }
        assert(seq![empty].drop_last() =~= Seq::<Seq<char>>::empty());
        assert(attributes_of_pieces(Seq::<Seq<char>>::empty()) =~= Seq::empty());
        assert(seq![empty].last() == empty);
        assert(attributes_of_pieces(seq![empty]) =~= Seq::empty());
        assert(attrs =~= Seq::empty());
    }
}

/// Each batch-processor setting is read from its own variable alone, with
/// its own default: the log processor's settings never follow the span
/// processor's, nor the other way round.
pub proof fn law_batch_settings_are_independent(e1: EnvView, e2: EnvView)
    ensures
        e1.otel_bsp_schedule_delay == e2.otel_bsp_schedule_delay ==> config_from_env(
            e1,
        ).bsp_schedule_delay_ms == config_from_env(e2).bsp_schedule_delay_ms,
        e1.otel_bsp_max_export_batch_size == e2.otel_bsp_max_export_batch_size
            ==> config_from_env(e1).bsp_max_batch_size == config_from_env(e2).bsp_max_batch_size,
        e1.otel_blrp_schedule_delay == e2.otel_blrp_schedule_delay ==> config_from_env(
            e1,
        ).blrp_schedule_delay_ms == config_from_env(e2).blrp_schedule_delay_ms,
        e1.otel_blrp_max_export_batch_size == e2.otel_blrp_max_export_batch_size
            ==> config_from_env(e1).blrp_max_batch_size == config_from_env(e2).blrp_max_batch_size,
        e1.otel_exporter_otlp_timeout == e2.otel_exporter_otlp_timeout ==> config_from_env(
            e1,
        ).timeout_ms == config_from_env(e2).timeout_ms,
{
}

/// An absent numeric variable gives the documented default: timeout 10000
/// ms, span schedule delay 5000 ms, log schedule delay 1000 ms, and 512 for
/// both maximum batch sizes, whatever the other variables hold.
pub proof fn law_absent_numbers_give_defaults(e: EnvView)
    ensures
        e.otel_exporter_otlp_timeout is None ==> config_from_env(e).timeout_ms == 10_000,
        e.otel_bsp_schedule_delay is None ==> config_from_env(e).bsp_schedule_delay_ms == 5_000,
        e.otel_bsp_max_export_batch_size is None ==> config_from_env(e).bsp_max_batch_size == 512,
        e.otel_blrp_schedule_delay is None ==> config_from_env(e).blrp_schedule_delay_ms
            == 1_000,
        e.otel_blrp_max_export_batch_size is None ==> config_from_env(e).blrp_max_batch_size
            == 512,
{
}

/// A numeric variable that is a string of ASCII digits whose value fits is
/// read as that value; one that is not a number gives the default.
pub proof fn law_numbers_read_their_value(s: Seq<char>, d: u64, z: usize)
    ensures
        s.len() > 0 && all_ascii_digits(s) && decimal_value(s) <= u64::MAX ==> u64_setting(
            Some(s),
            d,
        ) == decimal_value(s),
        s.len() > 0 && all_ascii_digits(s) && decimal_value(s) <= usize::MAX ==> usize_setting(
            Some(s),
            z,
        ) == decimal_value(s),
        (s.len() == 0 || (s[0] != '+' && !('0' <= s[0] && s[0] <= '9'))) ==> u64_setting(
            Some(s),
            d,
        ) == d && usize_setting(Some(s), z) == z,
{
    if s.len() > 0 && all_ascii_digits(s) {
        assert('0' <= s[0]);
        assert(unsigned_digits(s) == s);
        lemma_decimal_value_nonneg(s);
    }
    if s.len() > 0 && s[0] != '+' && !('0' <= s[0] && s[0] <= '9') {
        assert(unsigned_digits(s) == s);
        assert(!all_ascii_digits(s));
    }
}

/// Both ratio-based sampler names (in any padding and ASCII case) select the
/// parent-based ratio sampler with the configured ratio, or with ratio 1.0
/// when none was given; the two names never differ.
pub proof fn law_ratio_samplers_use_the_configured_ratio(s: Seq<char>, ratio_bits: Option<u64>)
    ensures
        normalize(s) == "traceidratio"@ || normalize(s) == "parentbased_traceidratio"@
            ==> sampler_spec(Some(s), ratio_bits) == Sampler::ParentBasedTraceIdRatio(
            match ratio_bits {
                Some(b) => b,
                None => 0x3FF0_0000_0000_0000u64,
            },
        ),
        sampler_spec(Some("traceidratio"@), ratio_bits) == sampler_spec(
            Some("parentbased_traceidratio"@),
            ratio_bits,
        ),
{
    reveal_strlit("traceidratio");
    reveal_strlit("parentbased_traceidratio");
    reveal_strlit("always_off");
    reveal_strlit("parentbased_always_off");
    lemma_normalize_idempotent("traceidratio"@);
    lemma_normalize_lowercase_keyword("traceidratio"@);
    lemma_normalize_lowercase_keyword("parentbased_traceidratio"@);
    assert("traceidratio"@.len() != "always_off"@.len());
    assert("traceidratio"@.len() != "parentbased_always_off"@.len());
    assert("parentbased_traceidratio"@.len() != "always_off"@.len());
    assert("parentbased_traceidratio"@.len() != "parentbased_always_off"@.len());
}

/// A keyword of lower-case letters and `_` is its own normalized form.
proof fn lemma_normalize_lowercase_keyword(k: Seq<char>)
    requires
        forall|i: int| 0 <= i < k.len() ==> ('a' <= #[trigger] k[i] && k[i] <= 'z') || k[i] == '_',
    ensures
        normalize(k) == k,
{
    if k.len() > 0 {
        assert(!is_white_space(k[0]));
        assert(!is_white_space(k.last()));
    }
    lemma_trim_of_trimmed(k);
    assert(ascii_lowercase(k) =~= k);
}

/// Each builder sets its own field to exactly the value given and leaves
/// every other field as it was.
pub proof fn law_builders_set_exactly_their_field(
    c: ConfigView,
    name: Seq<char>,
    version: Seq<char>,
    env: Seq<char>,
    sampler: Sampler,
)
    ensures
        set_service_name(c, name).service_name == name,
        set_service_version(c, version).service_version == Some(version),
        set_deployment_environment(c, env).deployment_environment == Some(env),
        set_sampler(c, sampler).sampler == sampler,
        ({
            let r = set_service_version(c, version);
            &&& r.endpoint == c.endpoint
            &&& r.protocol == c.protocol
            &&& r.timeout_ms == c.timeout_ms
            &&& r.service_name == c.service_name
            &&& r.deployment_environment == c.deployment_environment
            &&& r.extra_resource_attributes == c.extra_resource_attributes
            &&& r.sampler == c.sampler
            &&& r.rust_log == c.rust_log
            &&& r.dev_logs_to_stdout_override == c.dev_logs_to_stdout_override
        }),
        ({
            let r = set_service_name(c, name);
            &&& r.service_version == c.service_version
            &&& r.deployment_environment == c.deployment_environment
            &&& r.sampler == c.sampler
            &&& r.endpoint == c.endpoint
        }),
        ({
            let r = set_deployment_environment(c, env);
            &&& r.service_name == c.service_name
            &&& r.service_version == c.service_version
            &&& r.sampler == c.sampler
            &&& r.extra_resource_attributes == c.extra_resource_attributes
        }),
        ({
            let r = set_sampler(c, sampler);
            &&& r.service_name == c.service_name
            &&& r.service_version == c.service_version
            &&& r.deployment_environment == c.deployment_environment
            &&& r.endpoint == c.endpoint
        }),
{
}

/// The protocol names of the OpenTelemetry specification (in any padding
/// and ASCII case) select their protocol; every other value, and an absent
/// one, selects gRPC.
pub proof fn law_protocol_names(s: Seq<char>)
    ensures
        protocol_spec(None) == OtlpProtocol::Grpc,
        normalize(s) == "http/protobuf"@ ==> protocol_spec(Some(s)) == OtlpProtocol::HttpProto,
        normalize(s) == "http/json"@ ==> protocol_spec(Some(s)) == OtlpProtocol::HttpJson,
        normalize(s) == "grpc"@ ==> protocol_spec(Some(s)) == OtlpProtocol::Grpc,
        protocol_spec(Some(s)) == OtlpProtocol::HttpProto ==> normalize(s) == "http/protobuf"@
            || normalize(s) == "http_proto"@ || normalize(s) == "http-proto"@,
        protocol_spec(Some(s)) == OtlpProtocol::HttpJson ==> normalize(s) == "http/json"@
            || normalize(s) == "http-json"@,
{
    reveal_strlit("grpc");
    reveal_strlit("http/protobuf");
    reveal_strlit("http_proto");
    reveal_strlit("http-proto");
    reveal_strlit("http/json");
    reveal_strlit("http-json");
    assert("grpc"@.len() != "http/protobuf"@.len());
    assert("grpc"@.len() != "http_proto"@.len());
    assert("grpc"@.len() != "http-proto"@.len());
    assert("grpc"@.len() != "http/json"@.len());
    assert("grpc"@.len() != "http-json"@.len());
    assert("http/json"@.len() != "http/protobuf"@.len());
    assert("http/json"@[4] != "http_proto"@[4]);
    assert("http/json"@[4] != "http-proto"@[4]);
}

/// The off samplers: `always_off` never samples and
/// `parentbased_always_off` samples no root span, whatever ratio is given;
/// without a sampler name the parent-based always-on sampler is used.
pub proof fn law_sampler_names(s: Seq<char>, ratio_bits: Option<u64>)
    ensures
        sampler_spec(None, ratio_bits) == Sampler::ParentBasedAlwaysOn,
        normalize(s) == "always_off"@ ==> sampler_spec(Some(s), ratio_bits) == Sampler::AlwaysOff,
        normalize(s) == "parentbased_always_off"@ ==> sampler_spec(Some(s), ratio_bits)
            == Sampler::ParentBasedAlwaysOff,
{
    reveal_strlit("always_off");
    reveal_strlit("parentbased_always_off");
    assert("always_off"@.len() != "parentbased_always_off"@.len());
}

/// `BRRTR_DEV_LOGS_TO_STDOUT` switches the override on for `1`, `true`,
/// `yes` and `on` (in any padding and ASCII case) and for nothing else; an
/// absent variable leaves it off.
pub proof fn law_dev_override_values(s: Seq<char>)
    ensures
        dev_override_spec(None) == false,
        dev_override_spec(Some(s)) <==> (normalize(s) == "1"@ || normalize(s) == "true"@
            || normalize(s) == "yes"@ || normalize(s) == "on"@),
{
}

/// The service name is `OTEL_SERVICE_NAME` exactly, `unknown_service` when
/// it is absent; the service version is `OTEL_SERVICE_VERSION` exactly; the
/// endpoint is `OTEL_EXPORTER_OTLP_ENDPOINT` trimmed, absent when nothing but
/// white space is left; `RUST_LOG` is kept as given.
pub proof fn law_text_settings(e: EnvView)
    ensures
        e.otel_service_name matches Some(n) ==> config_from_env(e).service_name == n,
        e.otel_service_name is None ==> config_from_env(e).service_name == "unknown_service"@,
        config_from_env(e).service_version == e.otel_service_version,
        config_from_env(e).rust_log == e.rust_log,
        e.otel_exporter_otlp_endpoint is None ==> config_from_env(e).endpoint is None,
        e.otel_exporter_otlp_endpoint matches Some(x) ==> (trim(x).len() > 0 ==> config_from_env(
            e,
        ).endpoint == Some(trim(x))) && (trim(x).len() == 0 ==> config_from_env(e).endpoint is None),
{
}

} // verus!
