//! The weights a chain counts under: the table a file declares, paired with
//! the track that reads it.

use crate::bundle::record::{one_spelling, PreprocessRecord, RecordLift};
use crate::bundle::{CountLift, DveDecisionTrace, PreprocessBundle, PreprocessDecisionTrace, PreprocessTelemetry, StageReport};
use crate::clock::Instant;
use crate::config::{PreprocessClock, RunConfig};
use crate::cnf::dimacs::{dimacs_spec, formula_is};
use crate::cnf::reread::{lemma_write_then_read, rereadable};
use crate::cnf::weights::resolved::{declared_or_one, one_parts, Weights};
use crate::cnf::writer::dimacs_text;
use crate::cnf::{contains_empty_clause, has_empty_clause, Clause, CnfFormula, CnfMeta, LiteralWeight, Mode, Original, Reduced, ShowSet, WeightTable};
use crate::preprocess::{OriginalEntry, OriginalMap, VarMap};
use vstd::prelude::*;

verus! {

/// Whether `mode` counts under literal weights (`wmc`, `pwmc`).
pub open spec fn counts_weighted(mode: Mode) -> bool {
    mode == Mode::Wmc || mode == Mode::Pwmc
}

/// The weight table the file declares, when the mode counts under one:
/// `None` for an unweighted mode, whose count ignores any table the file
/// happens to carry, and for a weighted mode over a file that declares none.
pub fn weight_table(meta: &CnfMeta, mode: Mode) -> (r: Option<&WeightTable>)
    ensures
        match r {
            Some(t) => counts_weighted(mode) && meta.weights_spec() == Some(*t),
            None => !counts_weighted(mode) || meta.weights_spec() is None,
        },
{
    if mode.is_weighted() {
        meta.declared_weights()
    } else {
        None
    }
}

/// The instance's literal weights over `num_vars` variables, each literal the
/// file left unspecified weighing 1; all ones for an unweighted mode, where
/// every weighted count degenerates to its integer counterpart.
pub fn original_weights(meta: &CnfMeta, num_vars: usize, mode: Mode) -> (r: Weights<Original>)
    ensures
        r@.len() == num_vars,
        forall|i: int| 0 <= i < num_vars ==> #[trigger] r@[i] == match (if counts_weighted(mode) { meta.weights_spec() } else { None }) {
            Some(t) => (declared_or_one(t, -(i + 1)), declared_or_one(t, i + 1)),
            None => (one_parts(), one_parts()),
        },
{
    match weight_table(meta, mode) {
        Some(t) => t.resolve(num_vars),
        None => Weights::uniform(num_vars),
    }
}

/// `b` is the bundle of an instance preprocessing proved unsatisfiable over
/// `num_vars` variables: the two-unit-clause contradiction `x1`, `¬x1` over the
/// original variable space, the identity map both ways (the original-to-reduced
/// one only under `compile`), no lift, and the rest as handed in.
pub open spec fn is_unsat_bundle(
    b: PreprocessBundle,
    num_vars: u32,
    mode: Mode,
    show: Option<ShowSet<Reduced>>,
    stages: StageReport,
    telemetry: PreprocessTelemetry,
    decision_trace: Option<PreprocessDecisionTrace>,
) -> bool {
    let c = b.reduced.clauses@;
    let rec = b.record;
    &&& b.reduced.num_vars == num_vars
    &&& c.len() == 2
    &&& c[0].literals@.len() == 1 && c[0].literals@[0].var.number() == 1 && c[0].literals@[0].positive
    &&& c[1].literals@.len() == 1 && c[1].literals@[0].var.number() == 1 && !c[1].literals@[0].positive
    &&& rec.format@ == crate::bundle::RECORD_FORMAT_TAG@
    &&& rec.mode == mode
    &&& rec.count_lift_pow2 == 0
    &&& rec.weight_lift@ == one_spelling()
    &&& rec.original_num_vars == num_vars
    &&& rec.reduced_to_original_dimacs@.len() == num_vars
    &&& forall|i: int| 0 <= i < num_vars ==> #[trigger] rec.reduced_to_original_dimacs@[i] == Some((i + 1) as i32)
    &&& match rec.original_to_reduced_dimacs {
        Some(m) => mode == Mode::Compile && m@.len() == num_vars
            && forall|i: int| 0 <= i < num_vars ==> #[trigger] m@[i] == OriginalEntry::Literal((i + 1) as i32),
        None => mode != Mode::Compile,
    }
    &&& rec.forced_literals_original_dimacs@.len() == 0
    &&& rec.free_vars_original_dimacs@.len() == 0
    &&& rec.unsat
    &&& rec.show_vars_reduced_dimacs == show
    &&& rec.reduced_weights is None
    &&& b.learnt_clauses_reduced_dimacs@.len() == 0
    &&& b.stages == stages
    &&& b.count_lift == (CountLift { simplify_pow2: 0, arjun_pow2: 0 })
    &&& b.telemetry == telemetry
    &&& b.decision_trace == decision_trace
    &&& b.arjun_input is None
    &&& b.independent_support_reduced is None
}

/// The bundle for an instance preprocessing proved unsatisfiable: a
/// two-unit-clause contradiction over the original variable space, which
/// unlike the empty clause survives a DIMACS write and read, the identity map,
/// and no lift: the count is 0 before and after.
pub fn unsat_bundle(
    num_vars: u32,
    mode: Mode,
    show: Option<ShowSet<Reduced>>,
    stages: StageReport,
    telemetry: PreprocessTelemetry,
    decision_trace: Option<PreprocessDecisionTrace>,
) -> (r: PreprocessBundle)
    requires
        1 <= num_vars <= i32::MAX,
    ensures
        is_unsat_bundle(r, num_vars, mode, show, stages, telemetry, decision_trace),
{
    let reduced = CnfFormula::explicit_contradiction(num_vars);
    let mut record = PreprocessRecord::new(mode, RecordLift::neutral(), num_vars, VarMap::identity(num_vars));
    record.original_to_reduced_dimacs = match mode {
        Mode::Compile => Some(OriginalMap::identity(num_vars)),
        _ => None,
    };
    record.unsat = true;
    record.show_vars_reduced_dimacs = show;
    PreprocessBundle {
        reduced,
        record,
        stages,
        count_lift: CountLift { simplify_pow2: 0, arjun_pow2: 0 },
        telemetry,
        decision_trace,
        arjun_input: None,
        independent_support_reduced: None,
        learnt_clauses_reduced_dimacs: Vec::new(),
    }
}

/// The refutation a bundle carries is no empty clause, and it survives a
/// DIMACS write and read: reading back what is written of it gives the same
/// formula, with no track, show set or weight.
pub proof fn lemma_refutation_rereads(
    b: PreprocessBundle,
    num_vars: u32,
    mode: Mode,
    show: Option<ShowSet<Reduced>>,
    stages: StageReport,
    telemetry: PreprocessTelemetry,
    decision_trace: Option<PreprocessDecisionTrace>,
)
    requires
        is_unsat_bundle(b, num_vars, mode, show, stages, telemetry, decision_trace),
        num_vars >= 1,
    ensures
        !has_empty_clause(b.reduced.clauses@),
        dimacs_spec(dimacs_text(b.reduced)) matches Ok(st) && formula_is(b.reduced, st),
{
    let f = b.reduced;
    assert(rereadable(f)) by {
        assert forall|i: int, j: int, k: int|
            0 <= i < f.clauses@.len() && 0 <= j < k < f.clauses@[i].literals@.len()
                implies (#[trigger] f.clauses@[i].literals@[j]).var.number() < (#[trigger] f.clauses@[i].literals@[k]).var.number() by {
            assert(f.clauses@[i].literals@.len() == 1);
        }
    }
    lemma_write_then_read(f);
}

/// The bundle for an instance `clauses` refutes, or `None` when they carry
/// no refutation. The empty clause is the one thing DIMACS cannot spell, so a
/// stage that derives it answers with the explicit contradiction instead.
pub fn refuted(
    clauses: &[Clause],
    num_vars: u32,
    mode: Mode,
    show: Option<ShowSet<Reduced>>,
    stages: StageReport,
    telemetry: PreprocessTelemetry,
    decision_trace: Option<PreprocessDecisionTrace>,
) -> (r: Option<PreprocessBundle>)
    requires
        has_empty_clause(clauses@) ==> 1 <= num_vars <= i32::MAX,
    ensures
        r is Some <==> has_empty_clause(clauses@),
        r matches Some(b) ==> is_unsat_bundle(b, num_vars, mode, show, stages, telemetry, decision_trace),
{
    if contains_empty_clause(clauses) {
        Some(unsat_bundle(num_vars, mode, show, stages, telemetry, decision_trace))
    } else {
        None
    }
}

/// The record of a run whose stages changed nothing: no lift, the identity
/// map back to the original variables (and, under `compile`, forward from
/// them), the show set where the mode is projected or is `compile`, and the
/// weights where the mode is weighted or is `compile`.
pub fn identity_record(
    num_vars: u32,
    mode: Mode,
    show: Option<ShowSet<Reduced>>,
    weights: Option<Vec<LiteralWeight>>,
) -> (r: PreprocessRecord)
    requires
        num_vars <= i32::MAX,
    ensures
        r.format@ == crate::bundle::RECORD_FORMAT_TAG@,
        r.mode == mode,
        r.count_lift_pow2 == 0,
        r.weight_lift@ == one_spelling(),
        r.original_num_vars == num_vars,
        r.reduced_to_original_dimacs@.len() == num_vars,
        forall|i: int| 0 <= i < num_vars ==> #[trigger] r.reduced_to_original_dimacs@[i] == Some((i + 1) as i32),
        match r.original_to_reduced_dimacs {
            Some(m) => mode == Mode::Compile && m@.len() == num_vars
                && forall|i: int| 0 <= i < num_vars ==> #[trigger] m@[i] == OriginalEntry::Literal((i + 1) as i32),
            None => mode != Mode::Compile,
        },
        r.forced_literals_original_dimacs@.len() == 0,
        r.free_vars_original_dimacs@.len() == 0,
        !r.unsat,
        r.show_vars_reduced_dimacs == if mode == Mode::Pmc || mode == Mode::Pwmc || mode == Mode::Compile { show } else { None },
        r.reduced_weights == if counts_weighted(mode) || mode == Mode::Compile { weights } else { None },
{
    let mut record = PreprocessRecord::new(mode, RecordLift::neutral(), num_vars, VarMap::identity(num_vars));
    if let Mode::Compile = mode {
        record.original_to_reduced_dimacs = Some(OriginalMap::identity(num_vars));
    }
    if mode.is_projected() || matches!(mode, Mode::Compile) {
        record.show_vars_reduced_dimacs = show;
    }
    if mode.is_weighted() || matches!(mode, Mode::Compile) {
        record.reduced_weights = weights;
    }
    record
}

/// `t` is the decision trace of a run whose stages recorded none.
pub open spec fn is_empty_trace(t: PreprocessDecisionTrace) -> bool {
    &&& t.total_units == 0
    &&& t.phases@.len() == 0
    &&& t.dve == (DveDecisionTrace {
        rounds: 0,
        aggressive_passes: 0,
        defined_eliminated: 0,
        equivalence_eliminated: 0,
        budget_hit: false,
    })
}

/// `after` is `before` with its two closing values set: the total wall,
/// `earlier_ms` inherited plus `elapsed_ms` spent, saturating; and, under a
/// deterministic clock, an empty decision trace where no stage left one, so
/// an empty trace and no trace stay different answers.
pub open spec fn finished(before: PreprocessBundle, after: PreprocessBundle, config: RunConfig, elapsed_ms: u64, earlier_ms: u64) -> bool {
    &&& after.telemetry.total_ms == if earlier_ms + elapsed_ms <= u64::MAX { (earlier_ms + elapsed_ms) as u64 } else { u64::MAX }
    &&& after.telemetry == (PreprocessTelemetry { total_ms: after.telemetry.total_ms, ..before.telemetry })
    &&& if config.preprocess_clock is Deterministic && before.decision_trace is None {
        after.decision_trace matches Some(t) && is_empty_trace(t)
    } else {
        after.decision_trace == before.decision_trace
    }
    &&& after.reduced == before.reduced
    &&& after.record == before.record
    &&& after.stages == before.stages
    &&& after.count_lift == before.count_lift
    &&& after.arjun_input == before.arjun_input
    &&& after.independent_support_reduced == before.independent_support_reduced
    &&& after.learnt_clauses_reduced_dimacs == before.learnt_clauses_reduced_dimacs
}

/// The two closing values every route into preprocessing owes its bundle,
/// for a run that took `elapsed_ms` after inheriting `earlier_ms` of
/// preprocessing it did not repeat.
pub fn finish_bundle_at(bundle: &mut PreprocessBundle, config: &RunConfig, elapsed_ms: u64, earlier_ms: u64)
    ensures
        finished(*old(bundle), *final(bundle), *config, elapsed_ms, earlier_ms),
{
    match config.preprocess_clock {
        PreprocessClock::Deterministic { .. } => {
            if bundle.decision_trace.is_none() {
                bundle.decision_trace = Some(PreprocessDecisionTrace {
                    total_units: 0,
                    phases: Vec::new(),
                    dve: DveDecisionTrace {
                        rounds: 0,
                        aggressive_passes: 0,
                        defined_eliminated: 0,
                        equivalence_eliminated: 0,
                        budget_hit: false,
                    },
                });
            }
        },
        PreprocessClock::WallClock => {},
    }
    bundle.telemetry.total_ms = earlier_ms.saturating_add(elapsed_ms);
}

/// [`finish_bundle_at`] for a run that started at `started`, the time spent
/// read off the system clock: whatever it reads, the bundle is finished with
/// some elapsed time.
pub fn finish_bundle(bundle: &mut PreprocessBundle, config: &RunConfig, started: Instant, earlier_ms: u64)
    ensures
        exists|elapsed_ms: u64| finished(*old(bundle), *final(bundle), *config, elapsed_ms, earlier_ms),
{
    let elapsed = Instant::now().saturating_duration_since(started);
    let elapsed_ms = elapsed.as_millis() as u64;
    finish_bundle_at(bundle, config, elapsed_ms, earlier_ms);
}

} // verus!
