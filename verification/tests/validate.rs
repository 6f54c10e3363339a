//! Refusing configurations that cannot do what they say.

use vitri::clock::Duration;
use vitri::cnf::Mode;
use vitri::config::{
    ArjunBudget, ArjunClauseGrowth, ConstructionBudget, DvePolicy, ProjectionNoGain, ProjectionPolicy, RunConfig,
};
use vitri::error::ErrorKind;
use vitri::VitriError;

/// The refusal `config` gets from a sound spec that builds one vtree.
fn refusal(config: &RunConfig) -> String {
    let e = config.validate(Ok(()), false).expect_err("the configuration must be refused");
    assert_eq!(e.kind(), ErrorKind::Config);
    e.message().to_string()
}

#[test]
fn the_production_configuration_is_valid() {
    assert!(RunConfig::default().validate(Ok(()), false).is_ok());
    assert!(RunConfig::default().validate(Ok(()), true).is_ok());
}

#[test]
fn the_spec_verdict_comes_first() {
    let e = RunConfig::default()
        .validate(Err(VitriError::spec("nope", "unknown family")), true)
        .expect_err("a refused spec refuses the run");
    assert_eq!(e.kind(), ErrorKind::Spec);
}

#[test]
fn contradictory_simplify_settings_are_refused() {
    let mut c = RunConfig::default();
    c.simplify.dve = Some(DvePolicy { rounds: 0, budget_ms: 3000 });
    assert_eq!(
        refusal(&c),
        "simplify.dve is armed with rounds=0 and budget_ms=3000: both must be positive; use simplify.dve=None to disable DVE"
    );
    let mut c = RunConfig::default();
    c.simplify.backbone_budget_ms = None;
    assert_eq!(
        refusal(&c),
        "simplify.equivalence_budget_ms is inert when simplify.backbone_budget_ms=None because SAT equivalence probing belongs to the backbone prefix: set simplify.equivalence_budget_ms=None or provide a backbone budget"
    );
}

#[test]
fn a_knob_whose_stage_is_off_is_refused() {
    let mut c = RunConfig::default();
    c.stages.arjun = false;
    c.arjun_clause_growth = ArjunClauseGrowth::KeepSound;
    assert_eq!(
        refusal(&c),
        "arjun_clause_growth KeepSound is inert because the Arjun stage is off: switch the stage on, or use ArjunClauseGrowth::Reject"
    );
    let mut c = RunConfig::default();
    c.stages.arjun = false;
    c.arjun_budget = ArjunBudget::Exact(Duration::from_millis(10_574));
    assert_eq!(
        refusal(&c),
        "arjun_budget Exact(10.574s) is inert because the Arjun stage is off: switch the stage on, or use ArjunBudget::Derived"
    );
    c.arjun_budget = ArjunBudget::Exact(Duration::from_nanos(1_500_000));
    assert!(refusal(&c).starts_with("arjun_budget Exact(1.5ms) is inert"));
    c.arjun_budget = ArjunBudget::Exact(Duration::from_nanos(2_500));
    assert!(refusal(&c).starts_with("arjun_budget Exact(2.5µs) is inert"));
    c.arjun_budget = ArjunBudget::Exact(Duration::from_nanos(7));
    assert!(refusal(&c).starts_with("arjun_budget Exact(7ns) is inert"));
}

#[test]
fn a_knob_the_declared_mode_cannot_answer_is_refused() {
    let c = RunConfig {
        mode: Some(Mode::Pmc),
        arjun_clause_growth: ArjunClauseGrowth::RejectAgainst(17),
        ..RunConfig::default()
    };
    assert_eq!(
        refusal(&c),
        "arjun_clause_growth RejectAgainst(17) does nothing under mode pmc: that mode's preprocessing has no count-preserving chain, and so no clause-growth gate. Run mc/wmc, or use ArjunClauseGrowth::Reject"
    );
    let c = RunConfig {
        mode: Some(Mode::Compile),
        arjun_budget: ArjunBudget::Exact(Duration::from_secs(20)),
        ..RunConfig::default()
    };
    assert_eq!(
        refusal(&c),
        "arjun_budget Exact(20s) does nothing under mode compile: that mode's preprocessing has no Arjun stage. Run mc/wmc/pmc/pwmc, or use ArjunBudget::Derived"
    );
    let c = RunConfig {
        mode: Some(Mode::Mc),
        projection_policy: ProjectionPolicy::ArjunOnly(ProjectionNoGain::KeepSound),
        ..RunConfig::default()
    };
    assert_eq!(
        refusal(&c),
        "projection_policy ArjunOnly(KeepSound) does nothing under mode mc: that mode's preprocessing has no projected chain. Run pmc/pwmc, or use ProjectionPolicy::Full"
    );
}

#[test]
fn a_detected_mode_says_so_in_its_refusal() {
    let mut c = RunConfig::default();
    c.stages.simplify = false;
    assert_eq!(
        c.refuse_inert(Mode::Pmc).expect_err("pmc has no simplify stage").message(),
        "--no-simplify does nothing under mode pmc (detected from the instance's own headers — no --mode was given): that mode's preprocessing has no simplify stage. Drop it, or run a mode whose preprocessing has one"
    );
    let mut c = RunConfig::default();
    c.simplify.detect_gates = false;
    assert_eq!(
        c.refuse_inert(Mode::Compile).expect_err("compile caps the count-only stages").message(),
        "simplify.detect_gates and simplify.dve are count-only; changing either does nothing under mode compile because compile caps both stages off. Leave both at SimplifyPolicy::default(), or run mc/wmc"
    );
    assert!(RunConfig::default().refuse_inert(Mode::Pwmc).is_ok());
}

#[test]
fn work_and_candidate_bounds_are_refused() {
    let c = RunConfig {
        construction_budget: ConstructionBudget::Deterministic { units: 0 },
        ..RunConfig::default()
    };
    assert!(refusal(&c).starts_with("a deterministic construction budget of 0 work units"));
    let c = RunConfig { candidates: 0, ..RunConfig::default() };
    assert_eq!(refusal(&c), "candidates must be at least 1 (the selected vtree is always kept)");
    let c = RunConfig { candidates: 9, ..RunConfig::default() };
    assert!(refusal(&c).starts_with("candidates is 9 but the ceiling is 8 — "));
    let c = RunConfig {
        candidates: 3,
        vtree_spec: "min\"fill".to_string(),
        ..RunConfig::default()
    };
    assert_eq!(
        refusal(&c),
        "candidates is 3 but vtree spec \"min\\\"fill\" builds a single vtree — only the portfolio spec (portfolio) scores several candidates and therefore has a candidate set to retain"
    );
    assert!(c.validate(Ok(()), true).is_ok());
}
