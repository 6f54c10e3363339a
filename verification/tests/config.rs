//! Run configuration: the budget hint and the tokens a caller names policies
//! and modes with.

use vitri::candidates::{retains_set, CandidateRankMetric, MAX_CANDIDATES};
use vitri::cnf::Mode;
use vitri::config::{budget_hint_ms, ComponentPolicy, ConstructionBudget, RunConfig};
use vitri::clock::Instant;

#[test]
fn the_budget_hint_takes_a_u64_and_reads_anything_else_as_unset() {
    assert_eq!(budget_hint_ms(Some("120000")), Some(120_000));
    assert_eq!(budget_hint_ms(Some("3600000")), Some(3_600_000));
    assert_eq!(budget_hint_ms(Some("0")), Some(0));
    assert_eq!(budget_hint_ms(None), None);
    for unusable in ["not-a-number", "", " ", "12x", "-1", "1.5"] {
        assert_eq!(budget_hint_ms(Some(unusable)), None, "{unusable}");
    }
}

#[test]
fn every_mode_token_reads_back_to_its_mode() {
    for m in [Mode::Mc, Mode::Wmc, Mode::Pmc, Mode::Pwmc, Mode::Compile] {
        assert_eq!(Mode::parse_mode(m.token()), Some(m));
    }
    assert_eq!(Mode::names(), vec!["mc", "wmc", "pmc", "pwmc", "compile"]);
    assert_eq!(Mode::parse_mode("MC"), None);
    assert!(Mode::Pwmc.is_weighted() && Mode::Pwmc.is_projected());
    assert!(!Mode::Mc.is_weighted() && !Mode::Compile.is_projected());
}

#[test]
fn every_component_policy_token_reads_back() {
    for p in [ComponentPolicy::Split, ComponentPolicy::Whole] {
        assert_eq!(ComponentPolicy::parse(p.token()), Some(p));
    }
    assert_eq!(ComponentPolicy::parse("both"), None);
    assert_eq!(ComponentPolicy::names(), vec!["split", "whole"]);
}

#[test]
fn every_rank_metric_token_reads_back() {
    for m in [
        CandidateRankMetric::ClauseLoadStddev,
        CandidateRankMetric::PeakContextWidthShow,
        CandidateRankMetric::PeakContextWidthAll,
    ] {
        assert_eq!(CandidateRankMetric::parse(m.as_str()), Some(m));
    }
    assert_eq!(CandidateRankMetric::parse("peak_context_width"), None);
}

#[test]
fn one_vtree_is_no_set_and_two_are() {
    assert!(!retains_set(0));
    assert!(!retains_set(1));
    assert!(retains_set(2));
    assert!(retains_set(MAX_CANDIDATES));
    assert_eq!(MAX_CANDIDATES, 8);
}

#[test]
fn the_environment_defaults_are_the_production_configuration_with_its_budget() {
    let set = RunConfig::from_env_defaults(Some("120000"));
    assert_eq!(set.budget_ms, Some(120_000));
    let mut expected = RunConfig::default();
    expected.budget_ms = Some(120_000);
    assert_eq!(set, expected);
    assert_eq!(RunConfig::from_env_defaults(Some("1.5")), RunConfig::default());
    assert_eq!(RunConfig::from_env_defaults(None), RunConfig::default());
}

#[test]
fn construction_stops_where_its_policy_says() {
    let ms: u128 = 1_000_000;
    let now = Instant::from_nanos(5_000 * ms);
    let at = |t_ms: u128| Instant::from_nanos(5_000 * ms + t_ms * ms);
    let mut c = RunConfig::default();
    c.deadline = Some(at(600_000));
    assert_eq!(c.construction_deadline(now, None), Some(at(200_000)));
    c.deadline = Some(at(60_000));
    assert_eq!(c.construction_deadline(now, None), Some(at(60_000)));
    c.deadline = Some(at(6_000_000));
    assert_eq!(c.construction_deadline(now, None), Some(at(900_000)));
    c.construction_budget = ConstructionBudget::WholeRemaining;
    assert_eq!(c.construction_deadline(now, None), Some(at(6_000_000)));
    c.construction_budget = ConstructionBudget::Until(at(5_000));
    assert_eq!(c.construction_deadline(now, None), Some(at(5_000)));
    c.construction_budget = ConstructionBudget::Until(at(7_000_000));
    assert_eq!(c.construction_deadline(now, None), Some(at(6_000_000)));
    c.construction_budget = ConstructionBudget::Deterministic { units: 7 };
    assert_eq!(c.construction_deadline(now, Some(at(3))), Some(at(3)));
    c.deadline = None;
    assert_eq!(c.construction_deadline(now, Some(at(3))), Some(at(3)));
    c.construction_budget = ConstructionBudget::Share;
    assert_eq!(c.construction_deadline(now, None), None);
    c.budget_ms = Some(300_000);
    assert_eq!(c.construction_deadline(now, None), Some(at(100_000)));
}
