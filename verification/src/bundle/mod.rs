//! The decisions a preprocessing run makes about its stages: which stage may
//! run, which result is kept, and what a retry may reuse.

pub mod components;
pub mod export;
pub mod plumbing;
pub mod record;
pub mod report;
pub mod session;
pub mod stage;

pub use report::{
    CountLift, DiscardReason, DveDecisionTrace, PreprocessDecisionTrace, PreprocessPhase,
    PreprocessPhaseTrace, PreprocessTelemetry, ProbeDecisionCounts, SkipReason, StageOutcome,
    StageReport,
};
pub use session::{FrontendRetryConfig, RetryBudget, SessionGate};

pub use record::{PreprocessRecord, RECORD_FORMAT_TAG};

use crate::cnf::{CnfFormula, Mode, Reduced, ShowSet};
use vstd::prelude::*;

verus! {

/// The reduced formula's file name inside a bundle directory.
pub const REDUCED_CNF_NAME: &'static str = "reduced.cnf";

/// The record's file name inside a bundle directory.
pub const PREPROCESS_RECORD_NAME: &'static str = "preprocess.json";

/// A reduced formula paired with the record that lifts counts over it back
/// to the original: the two halves that always travel together, with what
/// each stage did and what it measured.
#[derive(Debug)]
pub struct PreprocessBundle {
    /// The reduced formula, in preprocessing's own variable numbering.
    pub reduced: CnfFormula,
    /// The lift and the variable maps back to the original numbering.
    pub record: PreprocessRecord,
    /// What each stage of the chain did.
    pub stages: StageReport,
    /// The cardinality lift, split across the stages that earned it.
    pub count_lift: CountLift,
    /// Measurements from the work this call attempted.
    pub telemetry: PreprocessTelemetry,
    /// Reproducible preprocessing decisions, under the deterministic clock.
    pub decision_trace: Option<PreprocessDecisionTrace>,
    /// The formula the Arjun stage was given, when the caller asked for it.
    pub arjun_input: Option<CnfFormula>,
    /// Arjun's independent support for an exported plain-count reduction, in
    /// the reduced formula's variables.
    pub independent_support_reduced: Option<ShowSet<Reduced>>,
    /// Redundant clauses Arjun derived, as 1-based DIMACS over the reduced
    /// formula's variables.
    pub learnt_clauses_reduced_dimacs: Vec<Vec<i32>>,
}

/// Whether a run keeps the count chain's first-stage checkpoint for later
/// Arjun retries: only a plain model count whose Arjun stage ran does.
pub fn retain_count_stage1(mode: Mode, arjun: Option<&StageOutcome>) -> (r: bool)
    ensures
        r == (mode == Mode::Mc && arjun == Some(&StageOutcome::Ran)),
{
    match arjun {
        Some(StageOutcome::Ran) => matches!(mode, Mode::Mc),
        _ => false,
    }
}

/// Whether an Arjun retry produced a reduction worth a new vtree: only one
/// whose stage ran and was kept. A discarded retry stops before a duplicate
/// vtree construction.
pub fn retry_produced_reduction(arjun: Option<&StageOutcome>) -> (r: bool)
    ensures
        r == (arjun == Some(&StageOutcome::Ran)),
{
    match arjun {
        Some(StageOutcome::Ran) => true,
        _ => false,
    }
}

} // verus!
