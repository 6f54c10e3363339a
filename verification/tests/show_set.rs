//! The show set: canonical, idempotent to edit, masked against a formula.

use vitri::cnf::{Original, ShowSet, VarId};

fn var(n: u32) -> VarId {
    VarId::new(n).unwrap()
}

#[test]
fn a_show_set_is_ascending_and_without_duplicates() {
    let s: ShowSet<Original> = ShowSet::from_dimacs_ids(&[5, 2, 5, 9]).unwrap();
    assert_eq!(s.as_dimacs(), &[2, 5, 9]);
    assert_eq!(s.len(), 3);
    assert!(s.contains(var(5)));
    assert!(!s.contains(var(3)));
    let e = ShowSet::<Original>::from_dimacs_ids(&[1, 0]).expect_err("0 names no variable");
    assert_eq!(e.kind(), vitri::error::ErrorKind::Input);
}

#[test]
fn insert_and_remove_are_idempotent() {
    let mut s: ShowSet<Original> = ShowSet::empty();
    assert!(s.is_empty());
    s.insert(var(4));
    s.insert(var(1));
    s.insert(var(4));
    assert_eq!(s.as_dimacs(), &[1, 4]);
    s.remove(var(7));
    assert_eq!(s.as_dimacs(), &[1, 4]);
    s.remove(var(1));
    s.remove(var(1));
    assert_eq!(s.as_dimacs(), &[4]);
}

#[test]
fn zero_based_indices_and_variables_build_the_same_set() {
    let a: ShowSet<Original> = ShowSet::from_zero_based(vec![2, 0]);
    let b: ShowSet<Original> = ShowSet::from_vars(vec![var(3), var(1), var(3)]);
    assert_eq!(a.as_dimacs(), &[1, 3]);
    assert_eq!(a.as_dimacs(), b.as_dimacs());
    assert_eq!(a.iter_vars(), vec![var(1), var(3)]);
}

#[test]
fn a_mask_marks_show_variables_and_drops_ids_beyond_the_formula() {
    let s: ShowSet<Original> = ShowSet::from_dimacs_ids(&[1, 3, 8]).unwrap();
    let mask = s.mask(4);
    assert_eq!(mask.as_slice(), &[true, false, true, false]);
    assert_eq!(mask.count(), 2);
    assert!(mask.is_show(var(3)));
    assert!(!mask.is_show(var(2)));
    let local = mask.restrict(&[var(3), var(2), var(1)]);
    assert_eq!(local.as_dimacs(), &[1, 3]);
}

#[test]
fn rebuilding_from_the_written_ids_gives_the_set_back() {
    let s: ShowSet<Original> = ShowSet::from_dimacs_ids(&[3, 1, 3]).unwrap();
    assert_eq!(s.as_dimacs(), &[1, 3]);
    let again: ShowSet<Original> = ShowSet::from_dimacs_ids(s.as_dimacs()).unwrap();
    assert_eq!(again, s);
    assert_eq!(ShowSet::<Original>::from_vars(vec![var(2), var(2), var(9), var(2)]).len(), 2);
}

#[test]
fn inserting_then_removing_an_absent_variable_restores_the_set() {
    let mut s: ShowSet<Original> = ShowSet::from_dimacs_ids(&[2, 6]).unwrap();
    let before = s.clone();
    s.insert(var(4));
    assert_eq!(s.len(), before.len() + 1);
    assert_eq!(s.as_dimacs(), &[2, 4, 6]);
    s.insert(var(4));
    assert_eq!(s.len(), before.len() + 1);
    s.remove(var(4));
    assert_eq!(s, before);
    s.remove(var(5));
    assert_eq!(s.len(), before.len());
}

#[test]
fn a_mask_counts_the_members_within_the_formula() {
    let s: ShowSet<Original> = ShowSet::from_dimacs_ids(&[2, 5, 7, 11]).unwrap();
    assert_eq!(s.mask(7).count(), 3);
    assert_eq!(s.mask(100).count(), s.len());
    assert_eq!(s.mask(1).count(), 0);
}
