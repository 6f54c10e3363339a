//! The Arjun stage's gates: the clause-blowup gate, the projection-gain gate,
//! and how the shared stage applies them with the variable-map check.

use vitri::bundle::stage::{arjun_skipped, arjun_stage, grew_clause_count, projection_gain_discard, ArjunOutcome};
use vitri::bundle::{DiscardReason, StageOutcome, StageReport};
use vitri::cnf::{Clause, CnfFormula, Literal, Reduced, ShowSet};
use vitri::config::{ArjunClauseGrowth, ProjectionNoGain, ProjectionPolicy, RunConfig};
use vitri::preprocess::arjun::ArjunResult;
use vitri::preprocess::VarMap;

/// A formula over `num_vars` variables from clauses of signed DIMACS
/// literals.
fn make_formula(num_vars: u32, clauses: Vec<Vec<i32>>) -> CnfFormula {
    CnfFormula {
        num_vars,
        clauses: clauses
            .into_iter()
            .map(|c| Clause::new(c.into_iter().map(Literal::from_dimacs).collect()))
            .collect(),
    }
}

/// Variable 1 with three positive and three negative occurrences.
fn raw() -> CnfFormula {
    make_formula(
        7,
        vec![
            vec![1, 2],
            vec![1, 3],
            vec![1, 4],
            vec![-1, 5],
            vec![-1, 6],
            vec![-1, 7],
        ],
    )
}

/// [`raw`] with variable 1 resolved away: nine pairings over six variables.
fn resolved_away() -> CnfFormula {
    let clauses = [2, 3, 4]
        .into_iter()
        .flat_map(|pos| [5, 6, 7].into_iter().map(move |neg| vec![pos - 1, neg - 1]))
        .collect();
    make_formula(6, clauses)
}

/// Six clauses again, over one variable fewer.
fn traded_evenly() -> CnfFormula {
    make_formula(
        6,
        vec![
            vec![1, 4],
            vec![1, 5],
            vec![1, 6],
            vec![2, 4],
            vec![3, 5],
            vec![2, 6],
        ],
    )
}

#[test]
fn a_reduction_that_grew_the_clause_count_is_discarded() {
    let raw = raw();

    assert_eq!(
        grew_clause_count(raw.clauses.len(), &resolved_away()),
        Some(DiscardReason::NotSmaller),
        "one variable saved does not pay for three more clauses",
    );
    assert_eq!(
        grew_clause_count(raw.clauses.len(), &traded_evenly()),
        None,
        "the same clause count over fewer variables is a reduction worth keeping",
    );
    assert_eq!(
        grew_clause_count(raw.clauses.len(), &make_formula(6, vec![vec![1, 2], vec![3, 4]])),
        None,
        "fewer clauses is the ordinary case, and carries no reason",
    );
}

#[test]
fn an_external_clause_baseline_can_accept_a_candidate_the_arjun_input_would_reject() {
    let input = raw();
    let candidate = resolved_away();

    assert_eq!(
        grew_clause_count(
            ArjunClauseGrowth::Reject.clause_count_baseline(input.clauses.len()),
            &candidate,
        ),
        Some(DiscardReason::NotSmaller),
        "the default baseline is the formula handed to Arjun",
    );
    assert_eq!(
        grew_clause_count(
            ArjunClauseGrowth::RejectAgainst(candidate.clauses.len())
                .clause_count_baseline(input.clauses.len()),
            &candidate,
        ),
        None,
        "an embedding caller's compile formula may have a larger baseline",
    );
    assert_eq!(
        grew_clause_count(
            ArjunClauseGrowth::RejectAgainst(candidate.clauses.len() - 1)
                .clause_count_baseline(input.clauses.len()),
            &candidate,
        ),
        Some(DiscardReason::NotSmaller),
        "the external baseline remains a strict clause-count quality gate",
    );
}

fn stage_candidate(map: VarMap<Reduced, Reduced>) -> ArjunResult {
    ArjunResult {
        formula: resolved_away(),
        multiplier_exp: 0,
        backbone: Vec::new(),
        equiv: Vec::new(),
        learnt_clauses: Vec::new(),
        independent_support: ShowSet::from_zero_based(vec![0, 2]),
        input_to_reduced_lit: map,
    }
}

fn run_candidate(
    policy: ArjunClauseGrowth,
    reason: DiscardReason,
    map: VarMap<Reduced, Reduced>,
) -> (Option<ArjunResult>, StageReport) {
    let config = RunConfig {
        arjun_clause_growth: policy,
        ..RunConfig::default()
    };
    let mut report = StageReport::default();
    let result = arjun_stage(
        &raw(),
        &config,
        &mut report,
        |_budget, _no_sbva| Ok(Some(stage_candidate(map))),
        |_candidate: &ArjunResult| Some(reason),
    )
    .expect("the synthetic stage cannot fail");
    (result, report)
}

#[test]
fn an_external_baseline_reaches_the_shared_arjun_discard_and_report_path() {
    let input = raw();
    let candidate = resolved_away();
    let map = || VarMap::from_entries((1..=6).map(Some).collect());
    let run = |policy: ArjunClauseGrowth| {
        let config = RunConfig {
            arjun_clause_growth: policy,
            ..RunConfig::default()
        };
        let mut report = StageReport::default();
        let result = arjun_stage(
            &input,
            &config,
            &mut report,
            |_budget, _no_sbva| Ok(Some(stage_candidate(map()))),
            |reduction: &ArjunResult| {
                grew_clause_count(
                    policy.clause_count_baseline(input.clauses.len()),
                    &reduction.formula,
                )
            },
        )
        .expect("the synthetic stage cannot fail");
        (result, report)
    };

    let (rejected, report) = run(ArjunClauseGrowth::Reject);
    assert!(rejected.is_none());
    assert_eq!(
        report.arjun,
        Some(StageOutcome::Discarded(DiscardReason::NotSmaller)),
    );

    let (kept, report) = run(ArjunClauseGrowth::RejectAgainst(candidate.clauses.len()));
    assert!(kept.is_some());
    assert_eq!(report.arjun, Some(StageOutcome::Ran));
}

#[test]
fn clause_growth_is_rejected_by_default_and_kept_only_when_asked() {
    let injective = || VarMap::from_entries((1..=6).map(Some).collect());
    let (rejected, report) = run_candidate(
        ArjunClauseGrowth::default(),
        DiscardReason::NotSmaller,
        injective(),
    );
    assert!(rejected.is_none());
    assert_eq!(
        report.arjun,
        Some(StageOutcome::Discarded(DiscardReason::NotSmaller)),
    );

    let (kept, report) = run_candidate(
        ArjunClauseGrowth::KeepSound,
        DiscardReason::NotSmaller,
        injective(),
    );
    assert!(kept.is_some());
    assert_eq!(report.arjun, Some(StageOutcome::Ran));
}

#[test]
fn keep_sound_bypasses_no_discard_except_clause_growth() {
    let injective = VarMap::from_entries((1..=6).map(Some).collect());
    let (kept, report) = run_candidate(
        ArjunClauseGrowth::KeepSound,
        DiscardReason::WeightedUnusable,
        injective,
    );
    assert!(kept.is_none());
    assert_eq!(
        report.arjun,
        Some(StageOutcome::Discarded(DiscardReason::WeightedUnusable)),
    );
}

#[test]
fn keep_sound_never_bypasses_the_noninjective_map_discard() {
    let noninjective = VarMap::from_entries(vec![Some(1), Some(1)]);
    let (kept, report) = run_candidate(
        ArjunClauseGrowth::KeepSound,
        DiscardReason::NotSmaller,
        noninjective,
    );
    assert!(kept.is_none());
    assert_eq!(
        report.arjun,
        Some(StageOutcome::Discarded(DiscardReason::NonInjectiveMap)),
    );
}

#[test]
fn only_arjun_only_keep_sound_bypasses_no_projection_gain() {
    assert_eq!(
        projection_gain_discard(false, ProjectionPolicy::Full),
        Some(DiscardReason::NoProjectionGain),
    );
    assert_eq!(
        projection_gain_discard(false, ProjectionPolicy::ArjunOnly(ProjectionNoGain::Reject)),
        Some(DiscardReason::NoProjectionGain),
    );
    assert_eq!(
        projection_gain_discard(false, ProjectionPolicy::ArjunOnly(ProjectionNoGain::KeepSound)),
        None,
    );
    for policy in [
        ProjectionPolicy::Full,
        ProjectionPolicy::ArjunOnly(ProjectionNoGain::Reject),
        ProjectionPolicy::ArjunOnly(ProjectionNoGain::KeepSound),
    ] {
        assert_eq!(projection_gain_discard(true, policy), None);
    }
}

#[test]
fn projection_keep_sound_never_bypasses_the_noninjective_map_discard() {
    let config = RunConfig {
        projection_policy: ProjectionPolicy::ArjunOnly(ProjectionNoGain::KeepSound),
        ..RunConfig::default()
    };
    let noninjective = VarMap::from_entries(vec![Some(1), Some(1)]);
    let mut report = StageReport::default();
    let kept = arjun_stage(
        &raw(),
        &config,
        &mut report,
        |_budget, _no_sbva| Ok(Some(stage_candidate(noninjective))),
        |_candidate: &ArjunResult| projection_gain_discard(false, config.projection_policy),
    )
    .expect("the synthetic stage cannot fail");

    assert!(kept.is_none());
    assert_eq!(
        report.arjun,
        Some(StageOutcome::Discarded(DiscardReason::NonInjectiveMap)),
    );
}

#[test]
fn a_stage_switched_off_is_skipped_and_an_empty_formula_has_nothing_to_do() {
    let mut config = RunConfig::default();
    config.stages.arjun = false;
    let mut report = StageReport::default();
    let r = arjun_stage(
        &raw(),
        &config,
        &mut report,
        |_budget, _no_sbva| Ok(Some(stage_candidate(VarMap::from_entries(vec![])))),
        |_candidate: &ArjunResult| None,
    )
    .expect("a skipped stage cannot fail");
    assert!(r.is_none());
    assert_eq!(
        report.arjun,
        Some(StageOutcome::Skipped(vitri::bundle::SkipReason::NotRequested))
    );

    let config = RunConfig::default();
    let mut report = StageReport::default();
    let r = arjun_stage(
        &make_formula(0, vec![]),
        &config,
        &mut report,
        |_budget, _no_sbva| Ok(Some(stage_candidate(VarMap::from_entries(vec![])))),
        |_candidate: &ArjunResult| None,
    )
    .expect("a skipped stage cannot fail");
    assert!(r.is_none());
    assert_eq!(
        report.arjun,
        Some(StageOutcome::Skipped(vitri::bundle::SkipReason::NothingToDo))
    );
}

#[test]
fn a_stage_that_gave_up_or_failed_reports_it() {
    let config = RunConfig::default();
    let mut report = StageReport::default();
    let r = arjun_stage(
        &raw(),
        &config,
        &mut report,
        |_budget, _no_sbva| Ok(None),
        |_candidate: &ArjunResult| None,
    )
    .expect("giving up is no failure");
    assert!(r.is_none());
    assert_eq!(report.arjun, Some(StageOutcome::GaveUp));

    let mut report = StageReport::default();
    let r = arjun_stage(
        &raw(),
        &config,
        &mut report,
        |_budget, _no_sbva| Err(vitri::VitriError::input("arjun refused")),
        |_candidate: &ArjunResult| None,
    );
    assert!(r.is_err());
    assert_eq!(report.arjun, None);
}

#[test]
fn arjun_is_skipped_when_off_or_with_nothing_to_reduce() {
    let on = RunConfig::default();
    assert!(!arjun_skipped(&raw(), &on));
    assert!(arjun_skipped(&make_formula(0, vec![]), &on));
    let mut off = RunConfig::default();
    off.stages.arjun = false;
    assert!(arjun_skipped(&raw(), &off));
}

#[test]
fn an_outcome_hands_out_the_kept_reduction_whatever_its_shape() {
    let kept: ArjunOutcome<ArjunResult, ArjunResult> = ArjunOutcome::Weighted(stage_candidate(VarMap::from_entries(vec![Some(1)])));
    assert_eq!(kept.reduced_formula().map(|f| f.num_vars), Some(resolved_away().num_vars));
    assert_eq!(kept.var_map().map(|m| m.entry(0)), Some(Some(1)));
    let skipped: ArjunOutcome<ArjunResult, ArjunResult> = ArjunOutcome::Skipped;
    assert!(skipped.reduced_formula().is_none());
    assert!(skipped.var_map().is_none());
}
