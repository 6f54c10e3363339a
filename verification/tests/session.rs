//! What a frontend retry keeps and what it may spend.

use vitri::bundle::session::retry_config;
use vitri::bundle::{SessionGate, retain_count_stage1, retry_produced_reduction, DiscardReason, FrontendRetryConfig, RetryBudget, StageOutcome};
use vitri::config::{ArjunBudget, ArjunSbva, RunConfig};
use vitri::clock::{Duration, Instant};
use vitri::cnf::Mode;
use vitri::error::ErrorKind;

#[test]
fn count_stage1_is_retained_for_plain_mc_arjun_retries() {
    assert!(retain_count_stage1(Mode::Mc, Some(&StageOutcome::Ran)));
    assert!(!retain_count_stage1(Mode::Wmc, Some(&StageOutcome::Ran)));
    assert!(!retain_count_stage1(Mode::Mc, None));
}

#[test]
fn retry_budget_refuses_a_zero_arjun_window() {
    let error = RetryBudget::new(Instant::now(), Duration::zero())
        .expect_err("a zero Arjun allowance must not construct a retry budget");

    assert!(error.message().contains("non-zero Arjun budget"));
    assert_eq!(error.kind(), ErrorKind::Config);
}

#[test]
fn a_discarded_arjun_retry_is_not_a_frontend_attempt() {
    let outcome = StageOutcome::Discarded(DiscardReason::NotSmaller);

    assert!(
        !retry_produced_reduction(Some(&outcome)),
        "a discarded retry must stop before duplicate vtree construction",
    );
}

#[test]
fn a_retry_budget_keeps_its_deadline_and_allowance() {
    let deadline = Instant::from_nanos(5_000_000_000);
    let budget = RetryBudget::new(deadline, Duration::from_millis(1_500)).expect("non-zero allowance");
    assert_eq!(budget.deadline(), deadline);
    assert_eq!(budget.arjun_budget(), Duration::from_millis(1_500));
    assert!(retry_produced_reduction(Some(&StageOutcome::Ran)));
    assert!(!retry_produced_reduction(None));
}

#[test]
fn a_retry_runs_to_the_earlier_deadline_under_its_own_overrides() {
    let budget = RetryBudget::new(Instant::from_nanos(9_000), Duration::from_millis(2)).unwrap();
    let mut config = RunConfig::default();
    let plain = retry_config(&config, budget, &FrontendRetryConfig::default(), Instant::from_nanos(1_000))
        .expect("the budget's deadline is still ahead");
    assert_eq!(plain.deadline, Some(Instant::from_nanos(9_000)));
    assert_eq!(plain.arjun_budget, ArjunBudget::Exact(Duration::from_millis(2)));
    assert_eq!(plain.vtree_spec, config.vtree_spec);
    assert_eq!(plain.arjun_sbva, ArjunSbva::On);
    config.deadline = Some(Instant::from_nanos(5_000));
    let overrides = FrontendRetryConfig { arjun_sbva: Some(ArjunSbva::Off), vtree_spec: Some("minfill".to_string()) };
    let tight = retry_config(&config, budget, &overrides, Instant::from_nanos(1_000)).expect("still ahead");
    assert_eq!(tight.deadline, Some(Instant::from_nanos(5_000)));
    assert_eq!(tight.vtree_spec, "minfill");
    assert_eq!(tight.arjun_sbva, ArjunSbva::Off);
    assert!(retry_config(&config, budget, &overrides, Instant::from_nanos(5_000)).is_none());
}

#[test]
fn a_session_prepares_once_and_retries_only_after() {
    let mut gate = SessionGate::new();
    assert!(!gate.prepared());
    let e = gate.check_retry().expect_err("no retry before the primary prepare");
    assert_eq!(e.kind(), ErrorKind::Config);
    assert_eq!(e.message(), "FrontendSession::retry requires a completed primary prepare");
    assert!(gate.begin_prepare().is_ok());
    assert!(gate.prepared());
    assert!(gate.check_retry().is_ok());
    let e = gate.begin_prepare().expect_err("a second prepare is refused");
    assert_eq!(e.kind(), ErrorKind::Config);
    assert_eq!(e.message(), "FrontendSession::prepare may be called at most once");
    assert!(gate.prepared());
}
