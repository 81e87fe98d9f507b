use microscaler_observability::shutdown::shutdown_outcome;
use microscaler_observability::{ObservabilityError, OtlpProtocol, Sampler, ShutdownGuard};

#[test]
fn public_enum_variants_still_exist() {
    assert!(matches!(
        ObservabilityError::AlreadyInitialized,
        ObservabilityError::AlreadyInitialized
    ));
    assert!(matches!(OtlpProtocol::Grpc, OtlpProtocol::Grpc));
    assert!(matches!(
        Sampler::ParentBasedAlwaysOn,
        Sampler::ParentBasedAlwaysOn
    ));
}

#[test]
fn noop_guard_holds_nothing() {
    let guard = ShutdownGuard::noop();
    assert!(guard.is_noop());
}

#[test]
fn noop_guard_shuts_down_cleanly() {
    assert!(ShutdownGuard::noop().shutdown().is_ok());
}

#[test]
fn shutdown_reports_the_first_failure() {
    assert!(shutdown_outcome(vec![]).is_ok());
    assert!(shutdown_outcome(vec![None, None, None, None]).is_ok());
    match shutdown_outcome(vec![None, Some("timed out".to_string()), Some("late".to_string())]) {
        Err(ObservabilityError::Shutdown(m)) => assert_eq!(m, "timed out"),
        other => panic!("unexpected {other:?}"),
    }
}
