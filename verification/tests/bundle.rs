//! The bundle around a reduced formula: its record and lift, the refutation
//! bundle, the closing values, and the checks that a build and a manifest
//! belong to the formula they are written beside.

use vitri::bundle::components::{local_to_reduced_dimacs, manifest_matches_vtree, manifest_vars, unclaimed_vars};
use vitri::bundle::export::{check_build_belongs, ComponentClaim};
use vitri::bundle::plumbing::{finish_bundle_at, original_weights, refuted, unsat_bundle, weight_table};
use vitri::bundle::record::{PreprocessRecord, RecordLift, RECORD_FORMAT_TAG};
use vitri::bundle::{PreprocessTelemetry, StageReport};
use vitri::cnf::{parse_rational_weight, Clause, CnfFormula, Literal, Mode, Reduced, ShowSet, VarId};
use vitri::clock::Instant;
use vitri::config::{PreprocessClock, RunConfig};
use vitri::error::ErrorKind;
use vitri::preprocess::{OriginalEntry, OriginalMap, VarMap};

fn make_formula(num_vars: u32, clauses: Vec<Vec<i32>>) -> CnfFormula {
    CnfFormula {
        num_vars,
        clauses: clauses
            .into_iter()
            .map(|c| Clause::new(c.into_iter().map(Literal::from_dimacs).collect()))
            .collect(),
    }
}

fn var(n: u32) -> VarId {
    VarId::new(n).unwrap()
}

fn claim(clause_indices: Vec<usize>, vtree_leaves: u32, local_to_outer: Vec<u32>) -> ComponentClaim {
    ComponentClaim { clause_indices, vtree_leaves, local_to_outer: local_to_outer.into_iter().map(var).collect() }
}

#[test]
fn the_lift_names_one_half_and_leaves_the_other_neutral() {
    let (k, w) = RecordLift::Pow2(5).into_fields();
    assert_eq!((k, w.as_str()), (5, "1/1"));
    let (k, w) = RecordLift::Weight(parse_rational_weight("6/4").unwrap()).into_fields();
    assert_eq!((k, w.as_str()), (0, "3/2"));
    let (k, w) = RecordLift::neutral().into_fields();
    assert_eq!((k, w.as_str()), (0, "1/1"));
}

#[test]
fn a_record_reads_its_lift_by_its_mode() {
    let r = PreprocessRecord::new(Mode::Mc, RecordLift::Pow2(7), 3, VarMap::identity(3));
    assert_eq!(r.format, RECORD_FORMAT_TAG);
    assert_eq!(r.lift(), "2^7");
    assert!(!r.unsat);
    assert!(r.original_to_reduced_dimacs.is_none());
    let w = PreprocessRecord::new(Mode::Wmc, RecordLift::Weight(parse_rational_weight("3/9").unwrap()), 3, VarMap::identity(3));
    assert_eq!(w.lift(), "1/3");
    assert_eq!(w.count_lift_pow2, 0);
}

#[test]
fn compile_writes_no_track_line_and_the_others_name_theirs() {
    let c = PreprocessRecord::new(Mode::Compile, RecordLift::neutral(), 2, VarMap::identity(2));
    assert_eq!(c.dimacs_header().track, None);
    let p = PreprocessRecord::new(Mode::Pmc, RecordLift::neutral(), 2, VarMap::identity(2));
    let h = p.dimacs_header();
    assert_eq!(h.track, Some(Mode::Pmc));
    assert!(h.show.is_none());
    assert!(h.weights.is_none());
}

#[test]
fn identity_maps_name_each_variable_as_itself() {
    let m: VarMap<Reduced, Reduced> = VarMap::identity(3);
    assert_eq!((m.entry(0), m.entry(2), m.entry(3)), (Some(1), Some(3), None));
    let o = OriginalMap::identity(2);
    assert_eq!(o.len(), 2);
    assert_eq!(o.entry(1), OriginalEntry::Literal(2));
    let f = OriginalMap::from_entries(vec![OriginalEntry::Fixed(true), OriginalEntry::Free]);
    assert_eq!(f.entry(0), OriginalEntry::Fixed(true));
}

#[test]
fn a_refuted_instance_becomes_the_explicit_contradiction() {
    let f = make_formula(3, vec![vec![1, 2], vec![]]);
    let show = ShowSet::<Reduced>::from_dimacs_ids(&[2, 3]).unwrap();
    let b = refuted(&f.clauses, 3, Mode::Compile, Some(show), StageReport::default(), PreprocessTelemetry::default(), None)
        .expect("an empty clause refutes");
    assert_eq!(b.reduced.num_vars, 3);
    assert_eq!(b.reduced.clauses.len(), 2);
    assert_eq!(b.reduced.clauses[0].literals, vec![Literal::from_dimacs(1)]);
    assert_eq!(b.reduced.clauses[1].literals, vec![Literal::from_dimacs(-1)]);
    assert!(b.record.unsat);
    assert_eq!(b.record.lift(), "2^0");
    assert_eq!(b.record.reduced_to_original_dimacs.entry(2), Some(3));
    let back = b.record.original_to_reduced_dimacs.as_ref().expect("compile keeps the total map");
    assert_eq!(back.entry(0), OriginalEntry::Literal(1));
    assert_eq!(b.record.show_vars_reduced_dimacs.as_ref().unwrap().as_dimacs(), &[2, 3]);
    let sat = make_formula(3, vec![vec![1, 2]]);
    assert!(refuted(&sat.clauses, 3, Mode::Mc, None, StageReport::default(), PreprocessTelemetry::default(), None).is_none());
    let counted = unsat_bundle(2, Mode::Mc, None, StageReport::default(), PreprocessTelemetry::default(), None);
    assert!(counted.record.original_to_reduced_dimacs.is_none());
}

#[test]
fn finishing_sums_the_wall_and_gives_a_deterministic_run_its_trace() {
    let mut b = unsat_bundle(1, Mode::Mc, None, StageReport::default(), PreprocessTelemetry::default(), None);
    let wall = RunConfig::default();
    finish_bundle_at(&mut b, &wall, 40, 2);
    assert_eq!(b.telemetry.total_ms, 42);
    assert!(b.decision_trace.is_none());
    let mut det = RunConfig::default();
    det.preprocess_clock = PreprocessClock::Deterministic { configured_wall_ms: None };
    finish_bundle_at(&mut b, &det, u64::MAX, 1);
    assert_eq!(b.telemetry.total_ms, u64::MAX);
    let trace = b.decision_trace.expect("a deterministic run always has a trace");
    assert_eq!(trace.total_units, 0);
    assert!(trace.phases.is_empty());
}

#[test]
fn weights_are_read_only_under_a_weighted_mode() {
    let text = b"p cnf 2 1\nc p weight 1 1/2 0\n1 2 0\n";
    let (_, meta) = CnfFormula::from_dimacs(text).unwrap();
    assert!(weight_table(&meta, Mode::Mc).is_none());
    assert!(weight_table(&meta, Mode::Wmc).is_some());
    let w = original_weights(&meta, 2, Mode::Wmc);
    let pair = w.get(var(1)).unwrap();
    assert_eq!((pair.0.spelling(), pair.1.spelling()), ("1/1".to_string(), "1/2".to_string()));
    let plain = original_weights(&meta, 2, Mode::Pmc);
    let pair = plain.get(var(1)).unwrap();
    assert_eq!((pair.0.spelling(), pair.1.spelling()), ("1/1".to_string(), "1/1".to_string()));
}

#[test]
fn a_build_that_fits_its_formula_is_accepted() {
    let f = make_formula(4, vec![vec![1, 2], vec![3, -4], vec![-2]]);
    assert!(check_build_belongs(4, None, &f).is_ok());
    let comps = vec![claim(vec![0, 2], 2, vec![1, 2]), claim(vec![1], 2, vec![3, 4])];
    assert!(check_build_belongs(4, Some(&comps), &f).is_ok());
}

#[test]
fn each_pairing_fault_is_refused_with_its_own_words() {
    let f = make_formula(4, vec![vec![1, 2], vec![3, -4], vec![-2]]);
    let e = check_build_belongs(3, None, &f).unwrap_err();
    assert_eq!(e.kind(), ErrorKind::Mismatch);
    assert_eq!(
        e.message(),
        "vtree has 3 leaves but the formula has 4 variables; the build does not belong to this formula"
    );
    let missing = vec![claim(vec![0, 7], 2, vec![1, 2])];
    assert_eq!(
        check_build_belongs(4, Some(&missing), &f).unwrap_err().message(),
        "component 0 claims clause 7 but the formula has 3 clauses; the build does not belong to this formula"
    );
    let twice = vec![claim(vec![0], 2, vec![1, 2]), claim(vec![2], 1, vec![2])];
    assert_eq!(
        check_build_belongs(4, Some(&twice), &f).unwrap_err().message(),
        "components 0 and 1 both claim variable 2; the build does not belong to this formula"
    );
    let leaves = vec![claim(vec![0, 2], 3, vec![1, 2])];
    assert_eq!(
        check_build_belongs(4, Some(&leaves), &f).unwrap_err().message(),
        "component 0 vtree has 3 leaves but its CNF has 2 variables; the build does not belong to this formula"
    );
    let renamed = vec![claim(vec![1], 2, vec![3, 1])];
    assert_eq!(
        check_build_belongs(4, Some(&renamed), &f).unwrap_err().message(),
        "component 0's local-to-outer map is not the numbering its clauses give (local 2 is named as variable 1 \
         and the clauses put variable 4 there); the build does not belong to this formula"
    );
    let short = vec![claim(vec![1], 2, vec![3])];
    assert_eq!(
        check_build_belongs(4, Some(&short), &f).unwrap_err().message(),
        "component 0's local-to-outer map is not the numbering its clauses give (the map names 1 variables \
         and the clauses cut out 2); the build does not belong to this formula"
    );
    let wide = make_formula(2, vec![vec![1, 5]]);
    let beyond = vec![claim(vec![0], 2, vec![1, 5])];
    assert_eq!(
        check_build_belongs(2, Some(&beyond), &wide).unwrap_err().message(),
        "clause 0 names variable 5 but the formula declares 2 variables"
    );
}

#[test]
fn a_manifest_must_name_every_variable_exactly_once() {
    assert!(manifest_matches_vtree(&[vec![1, 3], vec![4]], &[2], 4));
    assert!(!manifest_matches_vtree(&[vec![1, 3], vec![3]], &[2, 4], 4));
    assert!(!manifest_matches_vtree(&[vec![1, 3]], &[2], 4));
    assert!(!manifest_matches_vtree(&[vec![1, 5]], &[2, 3, 4], 4));
    assert!(!manifest_matches_vtree(&[vec![0]], &[], 0));
    assert!(!manifest_matches_vtree(&[vec![2]], &[2, 1], 2));
    assert!(manifest_matches_vtree(&[], &[], 0));
}

#[test]
fn anchoring_twice_keeps_the_first_deadline() {
    let mut c = RunConfig::default();
    c.budget_ms = Some(1_000);
    let first = c.anchored(Instant::from_nanos(5_000_000));
    let deadline = first.deadline.expect("a budget anchors a deadline");
    assert_eq!(deadline.as_nanos(), 1_005_000_000);
    let again = first.anchored(Instant::from_nanos(900_000_000));
    assert_eq!(again.deadline, first.deadline);
    assert_eq!(again.budget_ms, Some(1_000));
    let mut d = RunConfig::default();
    d.deadline = Some(deadline);
    let left = d.anchored(Instant::from_nanos(505_000_000));
    assert_eq!(left.budget_ms, Some(500));
}

#[test]
fn the_free_variables_are_those_no_component_holds() {
    assert_eq!(unclaimed_vars(6, &[vec![2, 5], vec![1]]), vec![3, 4, 6]);
    assert_eq!(unclaimed_vars(2, &[vec![1, 2]]), Vec::<u32>::new());
    assert_eq!(unclaimed_vars(3, &[vec![0, 9]]), vec![1, 2, 3]);
    let comps = vec![vec![2, 5], vec![1]];
    assert!(manifest_matches_vtree(&comps, &unclaimed_vars(6, &comps), 6));
}

#[test]
fn a_local_map_is_written_as_reduced_dimacs_ids() {
    assert_eq!(local_to_reduced_dimacs(&[var(3), var(7)]), vec![3, 7]);
    assert!(local_to_reduced_dimacs(&[]).is_empty());
}

#[test]
fn the_refutation_bundle_reads_back_as_written() {
    let f = make_formula(4, vec![vec![]]);
    let b = refuted(&f.clauses, 4, Mode::Mc, None, StageReport::default(), PreprocessTelemetry::default(), None)
        .expect("an empty clause refutes");
    assert!(!b.reduced.is_refuted());
    let (back, meta) = CnfFormula::from_dimacs(&b.reduced.write_dimacs()).unwrap();
    assert_eq!(back, b.reduced);
    assert!(meta.declared_track().is_none());
}

#[test]
fn an_unsplit_manifest_maps_every_variable_to_itself() {
    let (lists, free) = manifest_vars(3, None);
    assert_eq!(lists, vec![vec![1, 2, 3]]);
    assert!(free.is_empty());
    assert!(manifest_matches_vtree(&lists, &free, 3));
}

#[test]
fn a_split_manifest_lists_the_unclaimed_variables_as_free() {
    let (lists, free) = manifest_vars(6, Some(vec![vec![4, 2], vec![6]]));
    assert_eq!(lists, vec![vec![4, 2], vec![6]]);
    assert_eq!(free, vec![1, 3, 5]);
    assert!(manifest_matches_vtree(&lists, &free, 6));
    let (lists, free) = manifest_vars(3, Some(vec![vec![1, 2], vec![2]]));
    assert_eq!(free, vec![3]);
    assert!(!manifest_matches_vtree(&lists, &free, 3));
}
