//! What a run reports about its stages: how each ended, and why a stage that
//! ran left no reduction behind.

use vstd::prelude::*;

verus! {

/// How one preprocessing stage ended.
#[derive(Clone, Copy, Debug, PartialEq, Eq, Structural)]
#[non_exhaustive]
pub enum StageOutcome {
    /// It ran, and its result was kept.
    Ran,
    /// It did not start.
    Skipped(SkipReason),
    /// It started and produced nothing inside its budget.
    GaveUp,
    /// It produced a result that was thrown away.
    Discarded(DiscardReason),
}

/// Why a stage did not start.
#[derive(Clone, Copy, Debug, PartialEq, Eq, Structural)]
#[non_exhaustive]
pub enum SkipReason {
    /// The caller switched it off.
    NotRequested,
    /// There was nothing left for it to reduce.
    NothingToDo,
}

/// Why a stage's result was thrown away.
#[derive(Clone, Copy, Debug, PartialEq, Eq, Structural)]
#[non_exhaustive]
pub enum DiscardReason {
    /// It grew the clause count.
    NotSmaller,
    /// It did not minimize the projection.
    NoProjectionGain,
    /// A weighted result that was lossy or inert.
    WeightedUnusable,
    /// Its variable map aliased two variables.
    NonInjectiveMap,
}

/// The phrase a report gives a discard reason.
pub open spec fn discard_phrase(d: DiscardReason) -> Seq<char> {
    match d {
        DiscardReason::NotSmaller => "it grew the clause count"@,
        DiscardReason::NoProjectionGain => "it did not minimize the projection"@,
        DiscardReason::WeightedUnusable => "lossy or inert"@,
        DiscardReason::NonInjectiveMap => "non-injective variable map"@,
    }
}

impl DiscardReason {
    /// The phrase a report gives this reason.
    pub fn phrase(self) -> (r: &'static str)
        ensures
            r@ == discard_phrase(self),
    {
        match self {
            DiscardReason::NotSmaller => "it grew the clause count",
            DiscardReason::NoProjectionGain => "it did not minimize the projection",
            DiscardReason::WeightedUnusable => "lossy or inert",
            DiscardReason::NonInjectiveMap => "non-injective variable map",
        }
    }
}

/// How each preprocessing stage of a run ended; `None` for a stage the run's
/// mode does not have.
#[derive(Clone, Copy, Debug, PartialEq, Eq, Structural)]
#[non_exhaustive]
pub struct StageReport {
    /// The simplify chain.
    pub simplify: Option<StageOutcome>,
    /// The Arjun stage.
    pub arjun: Option<StageOutcome>,
    /// Arjun's bounded variable addition.
    pub sbva: Option<StageOutcome>,
}

impl Default for StageReport {
    /// The report of a run no stage has reported to yet.
    fn default() -> (r: Self)
        ensures
            r.simplify is None,
            r.arjun is None,
            r.sbva is None,
    {
        StageReport { simplify: None, arjun: None, sbva: None }
    }
}

/// The powers of two preprocessing divided the model count by, per stage.
#[derive(Clone, Copy, Debug, Default, PartialEq, Eq, Structural)]
#[non_exhaustive]
pub struct CountLift {
    /// From the simplify chain.
    pub simplify_pow2: u32,
    /// From the Arjun stage.
    pub arjun_pow2: u32,
}

impl CountLift {
    /// The power of two the reduced count is multiplied by to give the
    /// original's.
    pub fn total_pow2(self) -> (r: u32)
        requires
            self.simplify_pow2 + self.arjun_pow2 <= u32::MAX,
        ensures
            r == self.simplify_pow2 + self.arjun_pow2,
    {
        self.simplify_pow2 + self.arjun_pow2
    }
}

/// How long each stage took, in milliseconds, and what the backbone probe
/// found.
#[derive(Clone, Copy, Debug, Default, PartialEq, Eq, Structural)]
#[non_exhaustive]
pub struct PreprocessTelemetry {
    /// The whole of preprocessing.
    pub total_ms: u64,
    /// The simplify chain, when it was attempted.
    pub simplify_ms: Option<u64>,
    /// The backbone probe.
    pub backbone_ms: Option<u64>,
    /// The equivalence probe.
    pub equivalence_ms: Option<u64>,
    /// The elimination pass.
    pub dve_ms: Option<u64>,
    /// The Arjun stage.
    pub arjun_ms: Option<u64>,
    /// Backbone literals found.
    pub backbone_found: usize,
    /// Backbone probes made.
    pub backbone_probes: usize,
}

/// A phase of the simplify chain that spends a budget.
#[derive(Clone, Copy, Debug, PartialEq, Eq, Structural)]
#[non_exhaustive]
pub enum PreprocessPhase {
    /// The backbone probe.
    Backbone,
    /// The equivalence probe.
    Equivalence,
    /// The elimination pass.
    Dve,
}

/// How the probes of one phase ended.
#[derive(Clone, Copy, Debug, Default, PartialEq, Eq, Structural)]
#[non_exhaustive]
pub struct ProbeDecisionCounts {
    /// Probes that finished.
    pub completed: usize,
    /// Of those, satisfiable.
    pub satisfiable: usize,
    /// Of those, unsatisfiable.
    pub unsatisfiable: usize,
    /// Probes that ended without an answer.
    pub unknown: usize,
}

/// What one phase was given and spent.
#[derive(Clone, Copy, Debug, PartialEq, Eq, Structural)]
#[non_exhaustive]
pub struct PreprocessPhaseTrace {
    /// The phase.
    pub phase: PreprocessPhase,
    /// Its budget in milliseconds.
    pub budget_ms: u64,
    /// Its budget in work units.
    pub budget_units: u64,
    /// The work units it spent.
    pub spent_units: u64,
    /// How its probes ended.
    pub probes: ProbeDecisionCounts,
}

/// What the elimination pass did.
#[derive(Clone, Copy, Debug, Default, PartialEq, Eq, Structural)]
#[non_exhaustive]
pub struct DveDecisionTrace {
    /// Rounds run.
    pub rounds: usize,
    /// Aggressive passes run.
    pub aggressive_passes: usize,
    /// Variables eliminated as defined.
    pub defined_eliminated: usize,
    /// Variables eliminated as equivalent.
    pub equivalence_eliminated: usize,
    /// Whether the pass stopped at its budget.
    pub budget_hit: bool,
}

/// The decisions preprocessing made, phase by phase.
#[derive(Clone, Debug, Default, PartialEq, Eq)]
#[non_exhaustive]
pub struct PreprocessDecisionTrace {
    /// Work units spent in all.
    pub total_units: u64,
    /// Each phase in order.
    pub phases: Vec<PreprocessPhaseTrace>,
    /// The elimination pass.
    pub dve: DveDecisionTrace,
}

} // verus!
