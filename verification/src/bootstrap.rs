//! The decisions of the adapter's start-up: whether it may start, which
//! pipeline it builds, with which endpoint, resource attributes and filter,
//! and what a failed subscriber installation means.
//!
//! The side effects (the process-wide "initialized" flag, exporter
//! construction, the OpenTelemetry globals, the `tracing` subscriber) are the
//! caller's: it performs what these functions decide.
use vstd::prelude::*;

use opentelemetry_semantic_conventions::attribute::{SERVICE_NAME, SERVICE_VERSION};
use tracing_subscriber::EnvFilter;

use crate::config::{
    config_from_env, law_extra_attributes_never_carry_deployment_environment, ConfigView, EnvView,
    ObservabilityConfig, OtlpProtocol,
};
use crate::error::{ObservabilityError, ObservabilityResult};
use crate::shutdown::ShutdownGuard;
use crate::text::{
    chars_of, copy_range, has_prefix, is_white_space, is_white_space_char, lemma_trim_of_trimmed,
    lemma_split_on_without_sep, pairs_view, split_on, starts_with_chars,
    trim, trim_bounds,
};

verus! {

// ---------------------------------------------------------------------------
// Trusted items
// ---------------------------------------------------------------------------

/// `opentelemetry_semantic_conventions::attribute::SERVICE_NAME`, the
/// constant `"service.name"`.
#[verifier::external_body]
fn service_name_key() -> (r: &'static str)
    ensures
        r@ == "service.name"@,
{
    SERVICE_NAME
}

/// `opentelemetry_semantic_conventions::attribute::SERVICE_VERSION`, the
/// constant `"service.version"`.
#[verifier::external_body]
fn service_version_key() -> (r: &'static str)
    ensures
        r@ == "service.version"@,
{
    SERVICE_VERSION
}

/// Whether `tracing_subscriber::EnvFilter::try_new` accepts the filter
/// directives `directives`: a function of the text alone.
pub uninterp spec fn env_filter_accepts(directives: Seq<char>) -> bool;

/// Every character of `s` is ASCII.
pub open spec fn all_ascii(s: Seq<char>) -> bool {
    forall|i: int| 0 <= i < s.len() ==> (#[trigger] s[i] as u32) < 128
}

/// A directive the filter parser can read without panicking: it does not
/// start with white space, or it is ASCII only.
pub open spec fn directive_safe(p: Seq<char>) -> bool {
    p.len() == 0 || !is_white_space(p[0]) || all_ascii(p)
}

/// Every comma-separated directive of `d` can be read by the filter parser
/// without panicking.
pub open spec fn directives_safe_to_parse(d: Seq<char>) -> bool {
    forall|i: int|
        0 <= i < split_on(d, ',').len() ==> directive_safe(#[trigger] split_on(d, ',')[i])
}

/// `tracing_subscriber::EnvFilter::try_new(directives).is_ok()`: whether
/// the directives parse, named [`env_filter_accepts`]; which texts parse is
/// not stated. The parser splits the text at commas (`str::split`) and reads
/// each directive by the byte positions of its trimmed form while slicing the
/// untrimmed one. Those positions are character boundaries of the untrimmed
/// directive when it does not start with white space (the trimmed form is
/// then a prefix of it) or when it is ASCII only (every position is then a
/// boundary); other directives can make it panic and are not admitted.
#[verifier::external_body]
fn env_filter_parses(directives: &str) -> (r: bool)
    requires
        directives_safe_to_parse(directives@),
    ensures
        r == env_filter_accepts(directives@),
{
    EnvFilter::try_new(directives).is_ok()
}

// ---------------------------------------------------------------------------
// Specification
// ---------------------------------------------------------------------------

/// A character that ends the authority part of a URL.
pub open spec fn ends_authority(c: char) -> bool {
    c == '/' || c == '?' || c == '#'
}

/// Length of the authority at the start of `s`: everything up to the first
/// `/`, `?` or `#`.
pub open spec fn authority_len(s: Seq<char>) -> int
    decreases s.len(),
{
    if s.len() == 0 || ends_authority(s[0]) {
        0
    } else {
        1 + authority_len(s.drop_first())
    }
}

/// Where the host starts in an authority: after its last `@` (the user
/// information), else at its start.
pub open spec fn host_start(a: Seq<char>) -> int
    decreases a.len(),
{
    if a.len() == 0 {
        0
    } else if a.last() == '@' {
        a.len() as int
    } else {
        host_start(a.drop_last())
    }
}

/// The text after a URL's scheme names a host: what follows the user
/// information in its authority is not empty and does not begin with the
/// port separator `:`.
pub open spec fn names_host(rest: Seq<char>) -> bool {
    let a = rest.take(authority_len(rest));
    let h = a.skip(host_start(a));
    h.len() > 0 && h[0] != ':'
}

/// The text of a trimmed `http://` or `https://` endpoint after its scheme.
pub open spec fn after_scheme(t: Seq<char>) -> Seq<char> {
    if has_prefix(t, "http://"@) {
        t.skip("http://"@.len() as int)
    } else {
        t.skip("https://"@.len() as int)
    }
}

/// An endpoint is accepted when, trimmed, it starts with `http://` or
/// `https://` and names a host after the scheme.
pub open spec fn endpoint_accepted(e: Seq<char>) -> bool {
    let t = trim(e);
    &&& t.len() > 0
    &&& has_prefix(t, "http://"@) || has_prefix(t, "https://"@)
    &&& names_host(after_scheme(t))
}

/// Why an endpoint that is not accepted is refused.
pub open spec fn endpoint_rejection(e: Seq<char>) -> Seq<char> {
    let t = trim(e);
    if t.len() == 0 {
        "endpoint is empty after trim"@
    } else if !(has_prefix(t, "http://"@) || has_prefix(t, "https://"@)) {
        "must start with http:// or https://"@
    } else {
        "must name a host after the scheme"@
    }
}

/// The stdout `fmt` layer is installed when forced or when no endpoint is
/// configured.
pub open spec fn stdout_wanted(c: ConfigView) -> bool {
    c.dev_logs_to_stdout_override || c.endpoint is None
}

/// No OTLP pipeline is built: no endpoint, or one that is only white space.
pub open spec fn skips_otlp(c: ConfigView) -> bool {
    match c.endpoint {
        None => true,
        Some(e) => trim(e).len() == 0,
    }
}

/// The resource attributes of the pipeline: `service.name`,
/// `service.namespace = microscaler`, then `service.version` and
/// `deployment.environment` where configured, then the extra attributes.
pub open spec fn resource_attributes_of(c: ConfigView) -> Seq<(Seq<char>, Seq<char>)> {
    let version = match c.service_version {
        Some(v) => seq![("service.version"@, v)],
        None => Seq::empty(),
    };
    let environment = match c.deployment_environment {
        Some(d) => seq![("deployment.environment"@, d)],
        None => Seq::empty(),
    };
    seq![("service.name"@, c.service_name), ("service.namespace"@, "microscaler"@)] + version
        + environment + c.extra_resource_attributes
}

/// The configured filter directives: `rust_log`, `info` when absent.
pub open spec fn base_directives(c: ConfigView) -> Seq<char> {
    match c.rust_log {
        Some(s) => s,
        None => "info"@,
    }
}

/// The directives chosen from the configured ones (`base`), given whether
/// they can be handed to the parser and parse (`base_parses`) and whether
/// `error` parses (`error_parses`): the configured ones, else `error`, else
/// none at all.
pub open spec fn chosen_directives(base: Seq<char>, base_parses: bool, error_parses: bool) -> Seq<
    char,
> {
    if base_parses {
        base
    } else if error_parses {
        "error"@
    } else {
        Seq::empty()
    }
}

/// The filter directives used when `RUST_LOG` itself does not yield a
/// filter: the configured ones if the parser can read them without
/// panicking and they parse, else `error` if it parses, else none at all.
pub open spec fn fallback_directives(c: ConfigView) -> Seq<char> {
    chosen_directives(
        base_directives(c),
        directives_safe_to_parse(base_directives(c)) && env_filter_accepts(base_directives(c)),
        env_filter_accepts("error"@),
    )
}

/// Message of the refusal to build a trace exporter over OTLP/HTTP.
pub open spec fn http_traces_message() -> Seq<char> {
    "HTTP OTLP for traces requires opentelemetry-otlp http features; use grpc (default) or extend Cargo.toml"@
}

/// Message of the refusal to build a log exporter over OTLP/HTTP.
pub open spec fn http_logs_message() -> Seq<char> {
    "HTTP OTLP for logs not wired yet; use grpc"@
}

// ---------------------------------------------------------------------------
// Decisions
// ---------------------------------------------------------------------------

/// What start-up builds.
pub enum InitPlan {
    /// No OTLP pipeline: only the filter and, if `with_stdout`, a stdout
    /// `fmt` layer.
    FmtOnly { with_stdout: bool },
    /// An OTLP pipeline to `endpoint` with these resource attributes, plus a
    /// stdout `fmt` layer if `with_stdout`.
    Otlp { endpoint: String, with_stdout: bool, resource_attributes: Vec<(String, String)> },
}

/// Whether the stdout `fmt` layer is installed: when forced by the override,
/// or when no endpoint is configured.
pub fn should_install_stdout_fmt(config: &ObservabilityConfig) -> (r: bool)
    ensures
        r == stdout_wanted(config@),
{
    config.dev_logs_to_stdout_override || config.endpoint.is_none()
}

/// Whether the text of `t` from `start` on names a host (see
/// [`names_host`]).
fn names_host_from(t: &Vec<char>, start: usize) -> (r: bool)
    requires
        start <= t.len(),
    ensures
        r == names_host(t@.skip(start as int)),
{
    let ghost rest = t@.skip(start as int);
    let mut k = start;
    assert(rest =~= t@.skip(k as int));
    while k < t.len() && !(t[k] == '/' || t[k] == '?' || t[k] == '#')
        invariant
            start <= k <= t.len(),
            rest == t@.skip(start as int),
            authority_len(rest) == (k - start) + authority_len(t@.skip(k as int)),
        decreases t.len() - k,
    {
        assert(t@.skip(k as int).drop_first() =~= t@.skip(k + 1));
        k += 1;
    }
    assert(authority_len(t@.skip(k as int)) == 0);
    let ghost a = rest.take(authority_len(rest));
    assert(a =~= t@.subrange(start as int, k as int));
    let mut h = k;
    assert(a.take(h - start) =~= a);
    while h > start && t[h - 1] != '@'
        invariant
            start <= h <= k <= t.len(),
            a == t@.subrange(start as int, k as int),
            host_start(a) == host_start(a.take(h - start)),
        decreases h,
    {
        assert(a.take(h - start).drop_last() =~= a.take(h - 1 - start));
        h -= 1;
    }
    assert(host_start(a) == h - start);
    assert(a.skip(h - start) =~= t@.subrange(h as int, k as int));
    h < k && t[h] != ':'
}

/// Checks an OTLP endpoint: after trimming it must be non-empty, start with
/// `http://` or `https://`, and name a host after the scheme.
pub fn validate_endpoint(endpoint: &str) -> (r: ObservabilityResult<()>)
    ensures
        endpoint_accepted(endpoint@) <==> r is Ok,
        !endpoint_accepted(endpoint@) ==> (r matches Err(
            ObservabilityError::InvalidEndpoint { value, reason },
        ) && value@ == endpoint@ && reason@ == endpoint_rejection(endpoint@)),
{
    let cs = chars_of(endpoint);
    let (lo, hi) = trim_bounds(&cs);
    if lo == hi {
        return Err(
            ObservabilityError::InvalidEndpoint {
                value: endpoint.to_owned(),
                reason: "endpoint is empty after trim".to_owned(),
            },
        );
    }
    let t = copy_range(&cs, lo, hi);
    let http = starts_with_chars(&t, "http://");
    if !(http || starts_with_chars(&t, "https://")) {
        return Err(
            ObservabilityError::InvalidEndpoint {
                value: endpoint.to_owned(),
                reason: "must start with http:// or https://".to_owned(),
            },
        );
    }
    proof {
        reveal_strlit("http://");
        reveal_strlit("https://");
    }
    let start: usize = if http {
        7
    } else {
        8
    };
    if !names_host_from(&t, start) {
        return Err(
            ObservabilityError::InvalidEndpoint {
                value: endpoint.to_owned(),
                reason: "must name a host after the scheme".to_owned(),
            },
        );
    }
    Ok(())
}

/// The resource attributes of the pipeline (see [`resource_attributes_of`]).
pub fn build_resource_attributes(config: &ObservabilityConfig) -> (r: Vec<(String, String)>)
    ensures
        pairs_view(r@) == resource_attributes_of(config@),
{
    let mut attrs: Vec<(String, String)> = Vec::new();
    attrs.push((service_name_key().to_owned(), config.service_name.clone()));
    attrs.push(("service.namespace".to_owned(), "microscaler".to_owned()));
    match &config.service_version {
        Some(v) => {
            attrs.push((service_version_key().to_owned(), v.clone()));
        },
        None => {},
    }
    match &config.deployment_environment {
        Some(d) => {
            attrs.push(("deployment.environment".to_owned(), d.clone()));
        },
        None => {},
    }
    let ghost head = attrs@;
    let mut i: usize = 0;
    while i < config.extra_resource_attributes.len()
        invariant
            i <= config.extra_resource_attributes.len(),
            pairs_view(attrs@) == pairs_view(head) + pairs_view(
                config.extra_resource_attributes@,
            ).take(i as int),
        decreases config.extra_resource_attributes.len() - i,
    {
        let ghost before = attrs@;
        let k = config.extra_resource_attributes[i].0.clone();
        let v = config.extra_resource_attributes[i].1.clone();
        attrs.push((k, v));
        assert(pairs_view(attrs@) =~= pairs_view(before).push((k@, v@)));
        assert(pairs_view(config.extra_resource_attributes@).take(i + 1) =~= pairs_view(
            config.extra_resource_attributes@,
        ).take(i as int).push((k@, v@)));
        i += 1;
    }
    assert(pairs_view(config.extra_resource_attributes@).take(
        config.extra_resource_attributes.len() as int,
    ) =~= pairs_view(config.extra_resource_attributes@));
    assert(pairs_view(attrs@) =~= resource_attributes_of(config@));
    attrs
}

/// Whether the filter parser can read every directive of `d` without
/// panicking (see [`directives_safe_to_parse`]); only such texts are handed
/// to it.
pub fn directives_are_safe(d: &str) -> (r: bool)
    ensures
        r == directives_safe_to_parse(d@),
{
    let cs = chars_of(d);
    // Whether the pieces before the current one are safe, and what is known
    // of the current piece.
    let mut done_safe = true;
    let mut cur_empty = true;
    let mut cur_starts_ws = false;
    let mut cur_ascii = true;
    let mut i: usize = 0;
    assert(cs@.take(0) =~= Seq::<char>::empty());
    while i < cs.len()
        invariant
            i <= cs.len(),
            cs@ == d@,
            split_on(cs@.take(i as int), ',').len() >= 1,
            ({
                let parts = split_on(cs@.take(i as int), ',');
                let last = parts.last();
                &&& done_safe == forall|k: int|
                    0 <= k < parts.len() - 1 ==> directive_safe(#[trigger] parts[k])
                &&& cur_empty == (last.len() == 0)
                &&& cur_starts_ws == (last.len() > 0 && is_white_space(last[0]))
                &&& cur_ascii == all_ascii(last)
            }),
        decreases cs.len() - i,
    {
        let ghost parts = split_on(cs@.take(i as int), ',');
        assert(cs@.take(i + 1).drop_last() =~= cs@.take(i as int));
        assert(cs@.take(i + 1).last() == cs@[i as int]);
        let c = cs[i];
        let cur_safe = cur_empty || !cur_starts_ws || cur_ascii;
        assert(cur_safe == directive_safe(parts.last()));
        if c == ',' {
            let ghost next = parts.push(Seq::empty());
            assert(next =~= split_on(cs@.take(i + 1), ','));
            assert(done_safe && cur_safe <==> forall|k: int|
                0 <= k < next.len() - 1 ==> directive_safe(#[trigger] next[k])) by {
                if done_safe && cur_safe {
                    assert forall|k: int| 0 <= k < next.len() - 1 implies directive_safe(
                        #[trigger] next[k],
                    ) by {
                        assert(next[k] == parts[k]);
                    }
                }
                if !cur_safe {
                    assert(next[parts.len() - 1] == parts.last());
                }
                if !done_safe {
                    let k = choose|k: int|
                        0 <= k < parts.len() - 1 && !directive_safe(#[trigger] parts[k]);
                    assert(next[k] == parts[k]);
                }
            }
            done_safe = done_safe && cur_safe;
            cur_empty = true;
            cur_starts_ws = false;
            cur_ascii = true;
            assert(all_ascii(next.last()));
        } else {
            let ghost last = parts.last();
            let ghost next = parts.update(parts.len() - 1, last.push(c));
            assert(next =~= split_on(cs@.take(i + 1), ','));
            assert forall|k: int| 0 <= k < next.len() - 1 implies next[k] == parts[k] by {}
            if cur_empty {
                cur_starts_ws = is_white_space_char(c);
            }
            cur_ascii = cur_ascii && (c as u32) < 128;
            cur_empty = false;
            assert(next.last() == last.push(c));
            assert(cur_ascii == all_ascii(last.push(c))) by {
                if cur_ascii {
                    assert forall|k: int| 0 <= k < last.push(c).len() implies (#[trigger] last.push(
                        c,
                    )[k] as u32) < 128 by {
                        if k < last.len() {
                            assert(last.push(c)[k] == last[k]);
                        }
                    }
                } else if !all_ascii(last) {
                    let k = choose|k: int| 0 <= k < last.len() && !((#[trigger] last[k] as u32) < 128);
                    assert(last.push(c)[k] == last[k]);
                } else {
                    assert(last.push(c)[last.len() as int] == c);
                }
            }
        }
        i += 1;
    }
    assert(cs@.take(cs.len() as int) =~= cs@);
    let cur_safe = cur_empty || !cur_starts_ws || cur_ascii;
    let ghost parts = split_on(cs@, ',');
    assert(done_safe && cur_safe <==> directives_safe_to_parse(d@)) by {
        if done_safe && cur_safe {
            assert forall|k: int| 0 <= k < parts.len() implies directive_safe(
                #[trigger] parts[k],
            ) by {
                if k == parts.len() - 1 {
                    assert(parts[k] == parts.last());
                }
            }
        }
        if !cur_safe {
            assert(parts[parts.len() - 1] == parts.last());
        }
        if !done_safe {
            let k = choose|k: int| 0 <= k < parts.len() - 1 && !directive_safe(#[trigger] parts[k]);
            assert(parts[k] == parts[k]);
        }
    }
    done_safe && cur_safe
}

/// The configured directives when they can be handed to the parser and
/// parse, else `error` when it parses, else the empty text (which gives the
/// same filter as `EnvFilter::default()`).
pub fn choose_directives(base: String, base_parses: bool, error_parses: bool) -> (r: String)
    ensures
        r@ == chosen_directives(base@, base_parses, error_parses),
{
    if base_parses {
        base
    } else if error_parses {
        "error".to_owned()
    } else {
        String::new()
    }
}

/// The filter directives to use when `RUST_LOG` itself does not yield a
/// filter (see [`fallback_directives`]).
pub fn env_filter_directives(config: &ObservabilityConfig) -> (r: String)
    ensures
        r@ == fallback_directives(config@),
{
    let base = match &config.rust_log {
        Some(s) => s.clone(),
        None => "info".to_owned(),
    };
    proof {
        reveal_strlit("error");
        assert("error"@ =~= seq!['e', 'r', 'r', 'o', 'r']);
        lemma_split_on_without_sep("error"@, ',');
        assert(directive_safe(split_on("error"@, ',')[0]));
    }
    let base_parses = directives_are_safe(base.as_str()) && env_filter_parses(base.as_str());
    let error_parses = env_filter_parses("error");
    choose_directives(base, base_parses, error_parses)
}

/// The trace exporter is only built over gRPC.
pub fn check_span_exporter_protocol(protocol: OtlpProtocol) -> (r: ObservabilityResult<()>)
    ensures
        protocol == OtlpProtocol::Grpc <==> r is Ok,
        protocol != OtlpProtocol::Grpc ==> (r matches Err(
            ObservabilityError::ExporterConstruction(m),
        ) && m@ == http_traces_message()),
{
    match protocol {
        OtlpProtocol::Grpc => Ok(()),
        OtlpProtocol::HttpProto | OtlpProtocol::HttpJson => Err(
            ObservabilityError::ExporterConstruction(
                "HTTP OTLP for traces requires opentelemetry-otlp http features; use grpc (default) or extend Cargo.toml".to_owned(),
            ),
        ),
    }
}

/// The log exporter is only built over gRPC.
pub fn check_log_exporter_protocol(protocol: OtlpProtocol) -> (r: ObservabilityResult<()>)
    ensures
        protocol == OtlpProtocol::Grpc <==> r is Ok,
        protocol != OtlpProtocol::Grpc ==> (r matches Err(
            ObservabilityError::ExporterConstruction(m),
        ) && m@ == http_logs_message()),
{
    match protocol {
        OtlpProtocol::Grpc => Ok(()),
        OtlpProtocol::HttpProto | OtlpProtocol::HttpJson => Err(
            ObservabilityError::ExporterConstruction(
                "HTTP OTLP for logs not wired yet; use grpc".to_owned(),
            ),
        ),
    }
}

/// Decides start-up, given whether the process was already initialized
/// (the previous value of the process-wide flag, which the caller has just
/// set): a second start-up is refused; without a usable endpoint only the
/// `fmt` layer is installed; otherwise the endpoint is validated and the OTLP
/// pipeline planned.
pub fn plan_init(was_initialized: bool, config: &ObservabilityConfig) -> (r: ObservabilityResult<
    InitPlan,
>)
    ensures
        was_initialized ==> r matches Err(ObservabilityError::AlreadyInitialized),
        !was_initialized && skips_otlp(config@) ==> (r matches Ok(
            InitPlan::FmtOnly { with_stdout },
        ) && with_stdout == stdout_wanted(config@)),
        !was_initialized && !skips_otlp(config@) && !endpoint_accepted(config@.endpoint->0)
            ==> (r matches Err(ObservabilityError::InvalidEndpoint { value, reason }) && value@
            == config@.endpoint->0 && reason@ == endpoint_rejection(config@.endpoint->0)),
        !was_initialized && !skips_otlp(config@) && endpoint_accepted(config@.endpoint->0)
            ==> (r matches Ok(InitPlan::Otlp { endpoint, with_stdout, resource_attributes })
            && endpoint@ == config@.endpoint->0 && with_stdout == stdout_wanted(config@)
            && pairs_view(resource_attributes@) == resource_attributes_of(config@)),
{
    if was_initialized {
        return Err(ObservabilityError::AlreadyInitialized);
    }
    let with_stdout = should_install_stdout_fmt(config);
    match &config.endpoint {
        None => Ok(InitPlan::FmtOnly { with_stdout }),
        Some(endpoint) => {
            let cs = chars_of(endpoint.as_str());
            let (lo, hi) = trim_bounds(&cs);
            if lo == hi {
                return Ok(InitPlan::FmtOnly { with_stdout });
            }
            match validate_endpoint(endpoint.as_str()) {
                Ok(()) => {},
                Err(e) => {
                    return Err(e);
                },
            }
            let resource_attributes = build_resource_attributes(config);
            Ok(InitPlan::Otlp { endpoint: endpoint.clone(), with_stdout, resource_attributes })
        },
    }
}

/// Concludes start-up once the subscriber installation was attempted: on
/// success the guard is handed out and the process stays initialized; on
/// failure the error is reported and the process-wide flag must be cleared
/// again (the second component tells whether it stays set).
pub fn conclude_init(subscriber_installed: bool, guard: ShutdownGuard) -> (r: (
    ObservabilityResult<ShutdownGuard>,
    bool,
))
    ensures
        subscriber_installed ==> r.0 == Ok::<ShutdownGuard, ObservabilityError>(guard) && r.1,
        !subscriber_installed ==> (r.0 matches Err(ObservabilityError::SubscriberAlreadyInstalled)
            && !r.1),
{
    if subscriber_installed {
        (Ok(guard), true)
    } else {
        (Err(ObservabilityError::SubscriberAlreadyInstalled), false)
    }
}

// ---------------------------------------------------------------------------
// Laws
// ---------------------------------------------------------------------------

/// When the environment names a deployment environment (through
/// `DEPLOYMENT_ENVIRONMENT` or the `deployment.environment` resource
/// attribute), the pipeline's resource carries a `deployment.environment`
/// attribute, and every such attribute holds that value; when it names none,
/// the resource carries no such attribute.
pub proof fn law_deployment_environment_attribute_is_single(e: EnvView)
    ensures
        ({
            let c = config_from_env(e);
            let attrs = resource_attributes_of(c);
            &&& forall|i: int|
                0 <= i < attrs.len() && #[trigger] attrs[i].0 == "deployment.environment"@
                    ==> c.deployment_environment == Some(attrs[i].1)
            &&& c.deployment_environment matches Some(d) ==> exists|i: int|
                0 <= i < attrs.len() && #[trigger] attrs[i] == ("deployment.environment"@, d)
        }),
{
    reveal_strlit("service.name");
    reveal_strlit("service.namespace");
    reveal_strlit("service.version");
    reveal_strlit("deployment.environment");
    law_extra_attributes_never_carry_deployment_environment(e);
    let c = config_from_env(e);
    let attrs = resource_attributes_of(c);
    let v_len: int = if c.service_version is Some {
        1
    } else {
        0
    };
    let d_len: int = if c.deployment_environment is Some {
        1
    } else {
        0
    };
    let head_len = 2 + v_len;
    assert(attrs[0] == ("service.name"@, c.service_name));
    assert(attrs[1] == ("service.namespace"@, "microscaler"@));
    assert("service.name"@.len() != "deployment.environment"@.len());
    assert("service.namespace"@.len() != "deployment.environment"@.len());
    assert("service.version"@.len() != "deployment.environment"@.len());
    if c.service_version is Some {
        assert(attrs[2] == ("service.version"@, c.service_version->0));
    }
    if let Some(d) = c.deployment_environment {
        assert(attrs[head_len] == ("deployment.environment"@, d));
    }
    assert forall|i: int|
        0 <= i < attrs.len() && #[trigger] attrs[i].0 == "deployment.environment"@ implies c.deployment_environment
        == Some(attrs[i].1) by {
        if i >= head_len + d_len {
            assert(attrs[i] == c.extra_resource_attributes[i - head_len - d_len]);
        }
    }
}

/// The stdout `fmt` layer is installed exactly when the override is on or
/// no endpoint is configured: with an endpoint and without the override,
/// logs stay off stdout.
pub proof fn law_stdout_only_without_endpoint_or_when_forced(c: ConfigView)
    ensures
        c.endpoint is None ==> stdout_wanted(c),
        c.dev_logs_to_stdout_override ==> stdout_wanted(c),
        c.endpoint is Some && !c.dev_logs_to_stdout_override ==> !stdout_wanted(c),
{
}

/// A character of a DNS name or an IPv4 address.
pub open spec fn host_name_char(c: char) -> bool {
    ('a' <= c && c <= 'z') || ('A' <= c && c <= 'Z') || ('0' <= c && c <= '9') || c == '.' || c
        == '-'
}

/// A non-empty DNS name or IPv4 address.
pub open spec fn is_host_name(h: Seq<char>) -> bool {
    h.len() > 0 && forall|i: int| 0 <= i < h.len() ==> host_name_char(#[trigger] h[i])
}

/// An empty text, or `:` followed by decimal digits.
pub open spec fn is_port_suffix(p: Seq<char>) -> bool {
    p.len() == 0 || (p[0] == ':' && forall|i: int|
        1 <= i < p.len() ==> '0' <= #[trigger] p[i] && p[i] <= '9')
}

/// An empty text, or a path starting with `/` and holding no white space.
pub open spec fn is_path_suffix(q: Seq<char>) -> bool {
    q.len() == 0 || (q[0] == '/' && forall|i: int|
        0 <= i < q.len() ==> !is_white_space(#[trigger] q[i]))
}

/// `authority_len` of a text whose first `k` characters end no authority
/// and whose character `k` (if any) does.
proof fn lemma_authority_len_at(s: Seq<char>, k: int)
    requires
        0 <= k <= s.len(),
        forall|i: int| 0 <= i < k ==> !ends_authority(#[trigger] s[i]),
        k < s.len() ==> ends_authority(s[k]),
    ensures
        authority_len(s) == k,
    decreases k,
{
    if k > 0 {
        assert forall|i: int| 0 <= i < k - 1 implies !ends_authority(#[trigger] s.drop_first()[i]) by {
            assert(s.drop_first()[i] == s[i + 1]);
        }
        lemma_authority_len_at(s.drop_first(), k - 1);
    }
}

/// Without user information (`@`) the host starts the authority.
proof fn lemma_host_start_without_at(a: Seq<char>)
    requires
        forall|i: int| 0 <= i < a.len() ==> #[trigger] a[i] != '@',
    ensures
        host_start(a) == 0,
    decreases a.len(),
{
    if a.len() > 0 {
        assert(a.last() == a[a.len() - 1]);
        assert forall|i: int| 0 <= i < a.drop_last().len() implies #[trigger] a.drop_last()[i]
            != '@' by {
            assert(a.drop_last()[i] == a[i]);
        }
        lemma_host_start_without_at(a.drop_last());
    }
}

/// The part after the scheme of `scheme + h + p + q` names a host.
proof fn lemma_names_host_of(h: Seq<char>, p: Seq<char>, q: Seq<char>)
    requires
        is_host_name(h),
        is_port_suffix(p),
        is_path_suffix(q),
    ensures
        names_host(h + p + q),
{
    let rest = h + p + q;
    let k: int = (h.len() + p.len()) as int;
    assert forall|i: int| 0 <= i < k implies !ends_authority(#[trigger] rest[i]) && rest[i] != '@' by {
        if i < h.len() {
            assert(rest[i] == h[i]);
            assert(host_name_char(h[i]));
        } else {
            assert(rest[i] == p[i - h.len()]);
            if i > h.len() {
                assert('0' <= p[i - h.len()]);
            }
        }
    }
    if q.len() > 0 {
        assert(rest[k] == q[0]);
    }
    lemma_authority_len_at(rest, k);
    let a = rest.take(k);
    assert forall|i: int| 0 <= i < a.len() implies #[trigger] a[i] != '@' by {
        assert(a[i] == rest[i]);
    }
    lemma_host_start_without_at(a);
    assert(a.skip(0) =~= a);
    assert(a[0] == h[0]);
    assert(host_name_char(h[0]));
}

/// Every endpoint `http://H` or `https://H`, optionally followed by a port
/// `:N` and a path `/...`, whose host `H` is a non-empty DNS name or IPv4
/// address, is accepted.
pub proof fn law_endpoints_with_a_host_name_are_accepted(h: Seq<char>, p: Seq<char>, q: Seq<char>)
    requires
        is_host_name(h),
        is_port_suffix(p),
        is_path_suffix(q),
    ensures
        endpoint_accepted("http://"@ + h + p + q),
        endpoint_accepted("https://"@ + h + p + q),
{
    reveal_strlit("http://");
    reveal_strlit("https://");
    lemma_names_host_of(h, p, q);
    lemma_scheme_endpoint_accepted("http://"@, h, p, q);
    lemma_scheme_endpoint_accepted("https://"@, h, p, q);
}

/// An endpoint made of a scheme and such a host, port and path is its own
/// trim and is accepted.
proof fn lemma_scheme_endpoint_accepted(scheme: Seq<char>, h: Seq<char>, p: Seq<char>, q: Seq<char>)
    requires
        scheme == "http://"@ || scheme == "https://"@,
        is_host_name(h),
        is_port_suffix(p),
        is_path_suffix(q),
        names_host(h + p + q),
    ensures
        endpoint_accepted(scheme + h + p + q),
{
    reveal_strlit("http://");
    reveal_strlit("https://");
    let e = scheme + h + p + q;
    let rest = h + p + q;
    assert(e =~= scheme + rest);
    assert(e[0] == 'h');
    assert(!is_white_space(e.last())) by {
        if q.len() > 0 {
            assert(e.last() == q.last());
            assert(!is_white_space(q[q.len() - 1]));
        } else if p.len() > 0 {
            assert(e.last() == p.last());
            if p.len() > 1 {
                assert('0' <= p[p.len() - 1]);
            }
        } else {
            assert(e.last() == h.last());
            assert(host_name_char(h[h.len() - 1]));
        }
    }
    lemma_trim_of_trimmed(e);
    assert(e.take(scheme.len() as int) =~= scheme);
    assert(e.skip(scheme.len() as int) =~= rest);
    if scheme == "https://"@ {
        assert(e[4] == 's');
        assert(!has_prefix(e, "http://"@)) by {
            assert(e.take(7)[4] != "http://"@[4]);
        }
    }
}

/// A bare host with an optional port, without a scheme, is refused.
pub proof fn law_bare_hosts_are_refused(h: Seq<char>, p: Seq<char>)
    requires
        is_host_name(h),
        is_port_suffix(p),
    ensures
        !endpoint_accepted(h + p),
{
    reveal_strlit("http://");
    reveal_strlit("https://");
    let e = h + p;
    assert(!is_white_space(e[0])) by {
        assert(e[0] == h[0]);
        assert(host_name_char(h[0]));
    }
    assert(!is_white_space(e.last())) by {
        if p.len() > 0 {
            assert(e.last() == p.last());
            if p.len() > 1 {
                assert('0' <= p[p.len() - 1]);
            }
        } else {
            assert(e.last() == h.last());
            assert(host_name_char(h[h.len() - 1]));
        }
    }
    lemma_trim_of_trimmed(e);
    if e.len() >= 7 {
        assert(e[6] != '/') by {
            if 6 < h.len() {
                assert(e[6] == h[6]);
                assert(host_name_char(h[6]));
            } else {
                assert(e[6] == p[6 - h.len()]);
                if 6 - h.len() > 0 {
                    assert('0' <= p[6 - h.len()]);
                }
            }
        }
        assert(e.take(7)[6] != "http://"@[6]);
        if e.len() >= 8 {
            assert(e.take(8)[6] != "https://"@[6]);
        }
    }
}

} // verus!
