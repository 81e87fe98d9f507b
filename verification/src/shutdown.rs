//! RAII shutdown handle returned by a successful initialization.
use vstd::prelude::*;

use opentelemetry_sdk::logs::SdkLoggerProvider;
use opentelemetry_sdk::trace::SdkTracerProvider;

use crate::error::{ObservabilityError, ObservabilityResult};

verus! {

/// `opentelemetry_sdk::trace::SdkTracerProvider`, carried opaquely.
#[verifier::external_type_specification]
#[verifier::external_body]
pub struct ExSdkTracerProvider(SdkTracerProvider);

/// `opentelemetry_sdk::logs::SdkLoggerProvider`, carried opaquely.
#[verifier::external_type_specification]
#[verifier::external_body]
pub struct ExSdkLoggerProvider(SdkLoggerProvider);

/// `SdkTracerProvider::force_flush`: `None` on success, else the message of
/// its error. Whether it succeeds depends on the exporter and on time; that
/// is not stated.
#[verifier::external_body]
fn flush_tracer_provider(p: &SdkTracerProvider) -> Option<String> {
    match p.force_flush() {
        Ok(()) => None,
        Err(e) => Some(e.to_string()),
    }
}

/// `SdkLoggerProvider::force_flush`: `None` on success, else the message of
/// its error. Whether it succeeds depends on the exporter and on time; that
/// is not stated.
#[verifier::external_body]
fn flush_logger_provider(p: &SdkLoggerProvider) -> Option<String> {
    match p.force_flush() {
        Ok(()) => None,
        Err(e) => Some(e.to_string()),
    }
}

/// `SdkTracerProvider::shutdown`: `None` on success, else the message of its
/// error. Whether it succeeds depends on the exporter and on time; that is
/// not stated.
#[verifier::external_body]
fn shut_down_tracer_provider(p: &SdkTracerProvider) -> Option<String> {
    match p.shutdown() {
        Ok(()) => None,
        Err(e) => Some(e.to_string()),
    }
}

/// `SdkLoggerProvider::shutdown`: `None` on success, else the message of its
/// error. Whether it succeeds depends on the exporter and on time; that is
/// not stated.
#[verifier::external_body]
fn shut_down_logger_provider(p: &SdkLoggerProvider) -> Option<String> {
    match p.shutdown() {
        Ok(()) => None,
        Err(e) => Some(e.to_string()),
    }
}

/// The message of the first failed step, if any.
pub open spec fn first_failure(steps: Seq<Option<String>>) -> Option<Seq<char>>
    decreases steps.len(),
{
    if steps.len() == 0 {
        None
    } else {
        match first_failure(steps.drop_last()) {
            Some(m) => Some(m),
            None => match steps.last() {
                Some(m) => Some(m@),
                None => None,
            },
        }
    }
}

/// The outcome of a shutdown sequence, given what each step reported in
/// order (`None` for success, else a message): `Ok` when every step
/// succeeded, else `Shutdown` with the message of the first failure.
pub fn shutdown_outcome(steps: Vec<Option<String>>) -> (r: ObservabilityResult<()>)
    ensures
        first_failure(steps@) is None <==> r is Ok,
        first_failure(steps@) matches Some(m) ==> (r matches Err(ObservabilityError::Shutdown(x))
            && x@ == m),
{
    let mut i: usize = 0;
    assert(steps@.take(0) =~= Seq::<Option<String>>::empty());
    while i < steps.len()
        invariant
            i <= steps.len(),
            first_failure(steps@.take(i as int)) is None,
        decreases steps.len() - i,
    {
        assert(steps@.take(i + 1).drop_last() =~= steps@.take(i as int));
        match &steps[i] {
            Some(m) => {
                assert(first_failure(steps@.take(i + 1)) == Some(m@));
                proof {
                    lemma_first_failure_prefix(steps@, i + 1);
                }
                return Err(ObservabilityError::Shutdown(m.clone()));
            },
            None => {},
        }
        i += 1;
    }
    assert(steps@.take(steps.len() as int) =~= steps@);
    Ok(())
}

/// A failure found in a prefix is the first failure of the whole.
proof fn lemma_first_failure_prefix(steps: Seq<Option<String>>, k: int)
    requires
        0 <= k <= steps.len(),
        first_failure(steps.take(k)) is Some,
    ensures
        first_failure(steps) == first_failure(steps.take(k)),
    decreases steps.len() - k,
{
    if k < steps.len() {
        assert(steps.take(k + 1).drop_last() =~= steps.take(k));
        lemma_first_failure_prefix(steps, k + 1);
    } else {
        assert(steps.take(k) =~= steps);
    }
}

/// Opaque handle returned by a successful start-up. Hold it in `main()` for
/// the lifetime of the process: it keeps a handle on the tracer and logger
/// providers of the OTLP pipeline, and [`ShutdownGuard::shutdown`] flushes
/// and shuts them down. The global tracer provider and the subscriber's
/// layers hold handles of their own, so merely dropping the guard does not
/// flush or shut the pipeline down.
#[must_use]
pub struct ShutdownGuard {
    tracer_provider: Option<SdkTracerProvider>,
    logger_provider: Option<SdkLoggerProvider>,
}

impl ShutdownGuard {
    /// The tracer provider that the guard keeps alive, if any.
    pub closed spec fn tracer_provider(&self) -> Option<SdkTracerProvider> {
        self.tracer_provider
    }

    /// The logger provider that the guard keeps alive, if any.
    pub closed spec fn logger_provider(&self) -> Option<SdkLoggerProvider> {
        self.logger_provider
    }

    /// The guard keeps no provider alive.
    pub open spec fn holds_nothing(&self) -> bool {
        self.tracer_provider() is None && self.logger_provider() is None
    }

    /// A guard with nothing to flush, used when no OTLP pipeline was built.
    pub fn noop() -> (r: Self)
        ensures
            r.holds_nothing(),
    {
        ShutdownGuard { tracer_provider: None, logger_provider: None }
    }

    /// A guard that keeps the OTLP tracer and logger providers alive.
    pub fn new_otlp(tracer_provider: SdkTracerProvider, logger_provider: SdkLoggerProvider) -> (r:
        Self)
        ensures
            r.tracer_provider() == Some(tracer_provider),
            r.logger_provider() == Some(logger_provider),
    {
        ShutdownGuard { tracer_provider: Some(tracer_provider), logger_provider: Some(logger_provider) }
    }

    /// Flushes the span and then the log batch processor, then shuts down
    /// the tracer and then the logger provider, each step run whatever the
    /// earlier ones gave; reports the first failure as `Shutdown`. A guard
    /// with nothing to flush always succeeds.
    pub fn shutdown(self) -> (r: ObservabilityResult<()>)
        ensures
            self.holds_nothing() ==> r is Ok,
            r is Ok || r matches Err(ObservabilityError::Shutdown(_)),
    {
        let mut steps: Vec<Option<String>> = Vec::new();
        match &self.tracer_provider {
            Some(p) => steps.push(flush_tracer_provider(p)),
            None => {},
        }
        match &self.logger_provider {
            Some(p) => steps.push(flush_logger_provider(p)),
            None => {},
        }
        match &self.tracer_provider {
            Some(p) => steps.push(shut_down_tracer_provider(p)),
            None => {},
        }
        match &self.logger_provider {
            Some(p) => steps.push(shut_down_logger_provider(p)),
            None => {},
        }
        proof {
            if self.holds_nothing() {
                assert(steps@ =~= Seq::<Option<String>>::empty());
            }
        }
        shutdown_outcome(steps)
    }

    /// Whether the guard keeps no provider alive.
    pub fn is_noop(&self) -> (r: bool)
        ensures
            r == self.holds_nothing(),
    {
        self.tracer_provider.is_none() && self.logger_provider.is_none()
    }
}

} // verus!
