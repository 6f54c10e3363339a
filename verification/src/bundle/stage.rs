//! The Arjun stage, as both counting chains run it: may it run, what may it
//! spend, and is what came back worth keeping. Only the call itself and the
//! mode's own keep-gate differ; those two arrive as closures.

use crate::budget::{arjun_budget_ms, clamp};
use crate::clock::{Duration, Instant};
use crate::cnf::{CnfFormula, Reduced};
use crate::config::{ArjunBudget, ArjunClauseGrowth, ArjunSbva, ProjectionNoGain, ProjectionPolicy, RunConfig};
use crate::error::VitriError;
use crate::preprocess::arjun::ArjunResult;
use crate::preprocess::{map_injective, VarMap};
use super::report::{DiscardReason, SkipReason, StageOutcome, StageReport};
use vstd::prelude::*;

verus! {

/// The two things the shared Arjun stage needs from a reduction, whichever
/// shape it came back as: the formula it produced, and the variable map back
/// to the formula it was handed.
pub trait ArjunReduction {
    /// The reduced formula.
    spec fn spec_formula(&self) -> CnfFormula;

    /// The variable map.
    spec fn spec_map(&self) -> VarMap<Reduced, Reduced>;

    /// The reduced formula.
    fn reduced_formula(&self) -> (r: &CnfFormula)
        ensures
            *r == self.spec_formula(),
    ;

    /// Input variable → reduced literal, for the formula Arjun was handed.
    fn var_map(&self) -> (r: &VarMap<Reduced, Reduced>)
        ensures
            *r == self.spec_map(),
    ;
}

impl ArjunReduction for ArjunResult {
    open spec fn spec_formula(&self) -> CnfFormula {
        self.formula
    }

    open spec fn spec_map(&self) -> VarMap<Reduced, Reduced> {
        self.input_to_reduced_lit
    }

    fn reduced_formula(&self) -> (r: &CnfFormula) {
        &self.formula
    }

    fn var_map(&self) -> (r: &VarMap<Reduced, Reduced>) {
        &self.input_to_reduced_lit
    }
}

/// What a chain's Arjun stage came back with: the reduction being exported,
/// in the chain's unweighted (`P`) or weighted (`W`) shape, or its absence.
pub enum ArjunOutcome<P, W> {
    /// An unweighted reduction.
    Plain(P),
    /// A weighted reduction.
    Weighted(W),
    /// No reduction: the stage was skipped or its result discarded.
    Skipped,
}

impl<P: ArjunReduction, W: ArjunReduction> ArjunOutcome<P, W> {
    /// The formula Arjun produced, or `None` when the chain keeps the one it
    /// already had.
    pub fn reduced_formula(&self) -> (r: Option<&CnfFormula>)
        ensures
            r == match self {
                ArjunOutcome::Plain(a) => Some(&a.spec_formula()),
                ArjunOutcome::Weighted(a) => Some(&a.spec_formula()),
                ArjunOutcome::Skipped => None,
            },
    {
        match self {
            ArjunOutcome::Plain(a) => Some(a.reduced_formula()),
            ArjunOutcome::Weighted(a) => Some(a.reduced_formula()),
            ArjunOutcome::Skipped => None,
        }
    }

    /// The input-to-reduced map Arjun renumbered by, or `None` when nothing
    /// was renumbered.
    pub fn var_map(&self) -> (r: Option<&VarMap<Reduced, Reduced>>)
        ensures
            r == match self {
                ArjunOutcome::Plain(a) => Some(&a.spec_map()),
                ArjunOutcome::Weighted(a) => Some(&a.spec_map()),
                ArjunOutcome::Skipped => None,
            },
    {
        match self {
            ArjunOutcome::Plain(a) => Some(a.var_map()),
            ArjunOutcome::Weighted(a) => Some(a.var_map()),
            ArjunOutcome::Skipped => None,
        }
    }
}

/// Whether the Arjun stage is skipped before it starts, for a reason that
/// holds in every mode: the stage is switched off, or the formula has no
/// variable left to reduce.
pub fn arjun_skipped(formula: &CnfFormula, config: &RunConfig) -> (r: bool)
    ensures
        r == (!config.stages.arjun || formula.num_vars == 0),
{
    !config.stages.arjun || formula.num_vars == 0
}

/// Whether a reduction's variable map is injective onto its own formula.
pub open spec fn reduction_injective<R: ArjunReduction>(ar: R) -> bool {
    map_injective(ar.spec_map()@, ar.spec_formula().num_vars as int)
}

/// The Arjun stage's budget: the derived share of this run's budget, or the
/// exact allowance the caller named, clamped to what is left before the
/// deadline at `now`.
pub fn arjun_budget(config: &RunConfig, now: Instant) -> (r: Duration)
    ensures
        r == arjun_budget_at(*config, now),
{
    let budget = match config.arjun_budget {
        ArjunBudget::Derived => Duration::from_millis(arjun_budget_ms(config.budget_ms)),
        ArjunBudget::Exact(d) => d,
    };
    let r = clamp(budget, config.deadline, now);
    proof {
        lemma_duration_eq(r, clamp_spec(budget.nanos(), config.deadline, now));
    }
    r
}

/// The Arjun stage's budget for `config` when the clock reads `now`.
pub open spec fn arjun_budget_at(config: RunConfig, now: Instant) -> Duration {
    clamp_spec(
        match config.arjun_budget {
            ArjunBudget::Derived => derived_budget(config.budget_ms),
            ArjunBudget::Exact(d) => d.nanos(),
        },
        config.deadline,
        now,
    )
}

/// Whether bounded variable addition is switched off.
pub open spec fn sbva_off(s: ArjunSbva) -> bool {
    s == ArjunSbva::Off
}

/// The derived Arjun allowance in nanoseconds.
pub open spec fn derived_budget(budget_ms: Option<u64>) -> nat {
    (crate::budget::arjun_budget_spec(budget_ms) * crate::clock::ms_nanos()) as nat
}

/// `budget` nanoseconds cut to what is left before `deadline` at `now`, as a
/// span.
pub open spec fn clamp_spec(budget: nat, deadline: Option<Instant>, now: Instant) -> Duration {
    duration_of(
        match deadline {
            Some(d) => {
                let left = crate::budget::remaining_spec(d, now);
                if budget <= left {
                    budget
                } else {
                    left
                }
            },
            None => budget,
        },
    )
}

/// The span of `n` nanoseconds.
pub open spec fn duration_of(n: nat) -> Duration {
    choose|d: Duration| d.nanos() == n
}

/// Two spans of the same length are one.
proof fn lemma_duration_eq(d: Duration, e: Duration)
    requires
        d.nanos() == e.nanos(),
    ensures
        d == e,
{
    d.lemma_nanos_determine(e);
}

/// The clause-blowup gate both count-preserving stages apply: a reduction
/// that GREW the clause count past `baseline_clauses` compiles worse despite
/// having fewer variables, so it is discarded. It reads clause counts and
/// nothing else, and refuses on `>`, so an even trade is kept.
pub fn grew_clause_count(baseline_clauses: usize, reduced: &CnfFormula) -> (r: Option<DiscardReason>)
    ensures
        r == if reduced.clauses@.len() > baseline_clauses {
            Some(DiscardReason::NotSmaller)
        } else {
            None
        },
{
    if reduced.clauses.len() > baseline_clauses {
        Some(DiscardReason::NotSmaller)
    } else {
        None
    }
}

/// The projected chain's keep-gate: a reduction that did not minimize the
/// projection is discarded, unless the Arjun-only policy asked to keep such a
/// sound result.
pub fn projection_gain_discard(gain: bool, policy: ProjectionPolicy) -> (r: Option<DiscardReason>)
    ensures
        r == if gain || policy == ProjectionPolicy::ArjunOnly(ProjectionNoGain::KeepSound) {
            None
        } else {
            Some(DiscardReason::NoProjectionGain)
        },
{
    if gain {
        return None;
    }
    match policy {
        ProjectionPolicy::ArjunOnly(ProjectionNoGain::KeepSound) => None,
        _ => Some(DiscardReason::NoProjectionGain),
    }
}

/// What the gates make of a reduction `ar` that Arjun returned: the keep-gate's
/// reason discards it (a grown clause count only when the policy rejects
/// growth), then a non-injective map discards it, else it is kept.
pub open spec fn gated<R: ArjunReduction>(
    ar: R,
    why: Option<DiscardReason>,
    growth: ArjunClauseGrowth,
    r: Result<Option<R>, VitriError>,
    outcome: Option<StageOutcome>,
) -> bool {
    match why {
        Some(w) => if w == DiscardReason::NotSmaller && growth == ArjunClauseGrowth::KeepSound {
            kept_if_injective(ar, r, outcome)
        } else {
            r == Ok::<Option<R>, VitriError>(None) && outcome == Some(StageOutcome::Discarded(w))
        },
        None => kept_if_injective(ar, r, outcome),
    }
}

/// The last gate: an injective map keeps the reduction.
pub open spec fn kept_if_injective<R: ArjunReduction>(
    ar: R,
    r: Result<Option<R>, VitriError>,
    outcome: Option<StageOutcome>,
) -> bool {
    if reduction_injective(ar) {
        r == Ok::<Option<R>, VitriError>(Some(ar)) && outcome == Some(StageOutcome::Ran)
    } else {
        r == Ok::<Option<R>, VitriError>(None) && outcome == Some(StageOutcome::Discarded(DiscardReason::NonInjectiveMap))
    }
}

/// The Arjun stage skeleton all modes share: refuse the stage when it may not
/// run, spend its allotted budget on it, then apply the keep-or-discard gates
/// — the mode's own, where only a grown clause count may be kept under
/// [`ArjunClauseGrowth::KeepSound`], then the universal variable-map check —
/// recording how the stage ended in `report.arjun`. `None` means the caller
/// keeps the formula it already had.
///
/// `run` is the entry point for the mode, handed the budget and whether
/// bounded variable addition is off; `discard_reason` is the mode's
/// keep-gate.
pub fn arjun_stage<R: ArjunReduction, F, G>(
    formula: &CnfFormula,
    config: &RunConfig,
    report: &mut StageReport,
    run: F,
    discard_reason: G,
) -> (r: Result<Option<R>, VitriError>)
    where
        F: FnOnce(Duration, bool) -> Result<Option<R>, VitriError>,
        G: FnOnce(&R) -> Option<DiscardReason>,
    requires
        forall|b: Duration, s: bool| call_requires(run, (b, s)),
        forall|ar: &R| call_requires(discard_reason, (ar,)),
    ensures
        final(report).simplify == old(report).simplify,
        final(report).sbva == old(report).sbva,
        !config.stages.arjun ==> r == Ok::<Option<R>, VitriError>(None) && final(report).arjun == Some(
            StageOutcome::Skipped(SkipReason::NotRequested),
        ),
        config.stages.arjun && formula.num_vars == 0 ==> r == Ok::<Option<R>, VitriError>(None)
            && final(report).arjun == Some(StageOutcome::Skipped(SkipReason::NothingToDo)),
        config.stages.arjun && formula.num_vars != 0 ==> exists|now: Instant, out: Result<Option<R>, VitriError>|
            #[trigger] call_ensures(run, (arjun_budget_at(*config, now), sbva_off(config.arjun_sbva)), out) && match out {
                Err(e) => r == Err::<Option<R>, VitriError>(e) && final(report).arjun == old(report).arjun,
                Ok(None) => r == Ok::<Option<R>, VitriError>(None) && final(report).arjun == Some(StageOutcome::GaveUp),
                Ok(Some(ar)) => exists|why: Option<DiscardReason>| #[trigger] call_ensures(discard_reason, (&ar,), why)
                    && gated(ar, why, config.arjun_clause_growth, r, final(report).arjun),
            },
{
    if arjun_skipped(formula, config) {
        let why = if !config.stages.arjun {
            SkipReason::NotRequested
        } else {
            SkipReason::NothingToDo
        };
        report.arjun = Some(StageOutcome::Skipped(why));
        return Ok(None);
    }
    let now = Instant::now();
    let budget = arjun_budget(config, now);
    let no_sbva = matches!(config.arjun_sbva, ArjunSbva::Off);
    let out = run(budget, no_sbva);
    proof {
        assert(call_ensures(run, (arjun_budget_at(*config, now), sbva_off(config.arjun_sbva)), out));
    }
    let ar = match out {
        Err(e) => {
            return Err(e);
        },
        Ok(None) => {
            report.arjun = Some(StageOutcome::GaveUp);
            return Ok(None);
        },
        Ok(Some(ar)) => ar,
    };
    let why = discard_reason(&ar);
    match why {
        Some(w) => {
            let bypass = matches!(w, DiscardReason::NotSmaller) && matches!(
                config.arjun_clause_growth,
                ArjunClauseGrowth::KeepSound
            );
            if !bypass {
                report.arjun = Some(StageOutcome::Discarded(w));
                return Ok(None);
            }
        },
        None => {},
    }
    let injective = ar.var_map().is_injective(ar.reduced_formula().num_vars);
    if !injective {
        report.arjun = Some(StageOutcome::Discarded(DiscardReason::NonInjectiveMap));
        return Ok(None);
    }
    report.arjun = Some(StageOutcome::Ran);
    Ok(Some(ar))
}

} // verus!
