//! Literal weights per variable: built from pairs or a parsed table, written
//! back as pairs or rows, and folded through eliminated equivalences.

use vitri::cnf::{parse_rational_weight, CnfFormula, EquivFold, ExactWeight, Literal, Original, VarId, Weights};

fn w(s: &str) -> ExactWeight {
    parse_rational_weight(s).unwrap()
}

fn spelt(p: &(ExactWeight, ExactWeight)) -> (String, String) {
    (p.0.spelling(), p.1.spelling())
}

fn var(n: u32) -> VarId {
    VarId::new(n).unwrap()
}

#[test]
fn uniform_weights_are_one_both_ways() {
    let t: Weights<Original> = Weights::uniform(3);
    assert_eq!(t.len(), 3);
    assert!(!t.is_empty());
    assert_eq!(spelt(t.get(var(2)).unwrap()), ("1/1".to_string(), "1/1".to_string()));
    assert!(t.get(var(4)).is_none());
    assert!(t.weighted_vars().is_empty());
    assert!(Weights::<Original>::empty().is_empty());
}

#[test]
fn pairs_set_weights_the_last_pair_wins_and_strays_are_dropped() {
    let pairs = vec![(1, w("1/2")), (-2, w("3")), (1, w("2/3")), (9, w("5")), (0, w("7"))];
    let t: Weights<Original> = Weights::from_dimacs_pairs(&pairs, 2);
    assert_eq!(spelt(t.get(var(1)).unwrap()), ("1/1".to_string(), "2/3".to_string()));
    assert_eq!(spelt(t.get(var(2)).unwrap()), ("3/1".to_string(), "1/1".to_string()));
    assert_eq!(t.weighted_vars(), vec![var(1), var(2)]);
    let unequal = t.unequal_vars();
    assert_eq!(unequal.len(), 2);
    assert!(unequal.contains(&1) && unequal.contains(&2));
    let rows: Vec<(i32, String)> = t.to_record_rows().into_iter().map(|r| (r.literal, r.weight)).collect();
    assert_eq!(
        rows,
        vec![(1, "2/3".to_string()), (-1, "1/1".to_string()), (2, "1/1".to_string()), (-2, "3/1".to_string())]
    );
    let lits: Vec<i32> = t.to_dimacs_pairs().iter().map(|p| p.0).collect();
    assert_eq!(lits, vec![1, -1, 2, -2]);
}

#[test]
fn equal_weights_are_equal_whatever_their_spelling() {
    let pairs = vec![(1, w("2/4")), (-1, w("0.5")), (2, w("2/2"))];
    let t: Weights<Original> = Weights::from_dimacs_pairs(&pairs, 2);
    assert!(t.unequal_vars().is_empty());
    assert_eq!(t.weighted_vars(), vec![var(1)]);
}

#[test]
fn a_parsed_table_resolves_with_ones_where_nothing_was_said() {
    let (_, meta) = CnfFormula::from_dimacs(b"p cnf 3 0\nc p weight 2 1/3 0\nc p weight -3 4 0\n").unwrap();
    let table = meta.declared_weights().unwrap();
    let t: Weights<Original> = table.resolve(4);
    assert_eq!(spelt(t.get(var(1)).unwrap()), ("1/1".to_string(), "1/1".to_string()));
    assert_eq!(spelt(t.get(var(2)).unwrap()), ("1/1".to_string(), "1/3".to_string()));
    assert_eq!(spelt(t.get(var(3)).unwrap()), ("4/1".to_string(), "1/1".to_string()));
    assert_eq!(t.len(), 4);
    assert!(t.is_rational());
}

#[test]
fn folding_multiplies_straight_through_or_swapped() {
    let pairs = vec![(1, w("2")), (-1, w("3")), (2, w("5")), (-2, w("7"))];
    let mut t: Weights<Original> = Weights::from_dimacs_pairs(&pairs, 2);
    t.fold_into((w("1/2"), w("1/3")), Literal::pos(var(1)));
    assert_eq!(spelt(t.get(var(1)).unwrap()), ("3/2".to_string(), "2/3".to_string()));
    t.fold_into((w("1/2"), w("1/3")), Literal::neg(var(2)));
    assert_eq!(spelt(t.get(var(2)).unwrap()), ("7/3".to_string(), "5/2".to_string()));

    let mut u: Weights<Original> = Weights::from_dimacs_pairs(&pairs, 2);
    u.fold_eliminated(&[EquivFold { eliminated: var(2), survivor: Literal::neg(var(1)) }]);
    assert_eq!(spelt(u.get(var(1)).unwrap()), ("15/1".to_string(), "14/1".to_string()));
    assert_eq!(spelt(u.get(var(2)).unwrap()), ("7/1".to_string(), "5/1".to_string()));
}

#[test]
fn resizing_keeps_a_prefix_and_pads_with_ones() {
    let pairs = vec![(1, w("2")), (-3, w("3"))];
    let mut t: Weights<Original> = Weights::from_dimacs_pairs(&pairs, 3);
    t.resize_neutral(2);
    assert_eq!(t.len(), 2);
    assert_eq!(t.weighted_vars(), vec![var(1)]);
    t.resize_neutral(4);
    assert_eq!(t.len(), 4);
    assert_eq!(spelt(&t.as_pairs()[3]), ("1/1".to_string(), "1/1".to_string()));
    let r = t.assume_reduced_identity();
    assert_eq!(r.len(), 4);
}

#[test]
fn a_carried_table_weighs_an_unnamed_variable_one_both_ways() {
    let t: Weights<Original> = Weights::from_carried(vec![Some((w("2"), w("1/3"))), None]);
    assert_eq!(t.len(), 2);
    assert_eq!(spelt(t.get(var(1)).unwrap()), ("2/1".to_string(), "1/3".to_string()));
    assert_eq!(spelt(t.get(var(2)).unwrap()), ("1/1".to_string(), "1/1".to_string()));
}

#[test]
fn a_table_read_literal_by_literal_is_abandoned_at_the_first_gap() {
    let read = |lit: i32| if lit == 2 { None } else { Some(w(&format!("{}", lit.abs() * 10 + i32::from(lit > 0)))) };
    assert!(Weights::<Original>::try_from_dimacs_lits(2, read).is_none());
    let t = Weights::<Original>::try_from_dimacs_lits(1, read).expect("both literals of variable 1 answer");
    assert_eq!(spelt(t.get(var(1)).unwrap()), ("10/1".to_string(), "11/1".to_string()));
    let none = Weights::<Original>::try_from_dimacs_lits(0, read).expect("no variable asks nothing");
    assert!(none.is_empty());
}

#[test]
fn equal_values_are_spelt_alike() {
    let spell = |s: &str| parse_rational_weight(s).unwrap().spelling();
    assert_eq!(spell("2/4"), "1/2");
    assert_eq!(spell("2/4"), spell("0.5"));
    assert_eq!(spell("-6/-8"), spell("75e-2"));
    assert_eq!(spell("-0"), spell("0/7"));
    assert_eq!(spell("3/-9"), "-1/3");
}

#[test]
fn a_written_weight_reads_back_as_the_same_rational() {
    for raw in ["2/4", "-6/8", "0.125", "-0", "12e3", "7/-21", "1_000/+4"] {
        let w = parse_rational_weight(raw).unwrap();
        let again = parse_rational_weight(&w.spelling()).unwrap();
        assert_eq!(again.spelling(), w.spelling());
        assert_eq!(again, parse_rational_weight(&again.spelling()).unwrap());
    }
    assert_eq!(parse_rational_weight("1_000/+4").unwrap().spelling(), "250/1");
    assert!(parse_rational_weight("_1/2").is_err());
    assert!(parse_rational_weight("1/--2").is_err());
}
