//! The per-variable views of a clause set.

use vitri::cnf::occ::{appearance_mask, frequency, literal_frequency, literal_index, occurrence_lists};
use vitri::cnf::{Clause, Literal};

fn clauses(cs: Vec<Vec<i32>>) -> Vec<Clause> {
    cs.into_iter()
        .map(|c| Clause::new(c.into_iter().map(Literal::from_dimacs).collect()))
        .collect()
}

#[test]
fn a_literal_has_two_slots_per_variable() {
    assert_eq!(literal_index(0, true), 0);
    assert_eq!(literal_index(0, false), 1);
    assert_eq!(literal_index(3, true), 6);
    assert_eq!(literal_index(3, false), 7);
}

#[test]
fn counts_and_masks_skip_variables_beyond_the_table() {
    let cs = clauses(vec![vec![1, -2], vec![-1, 3], vec![1, 5]]);
    assert_eq!(appearance_mask(&cs, 4), vec![true, true, true, false]);
    assert_eq!(frequency(&cs, 4), vec![3, 1, 1, 0]);
    assert_eq!(literal_frequency(&cs, 3), vec![2, 1, 0, 1, 1, 0]);
}

#[test]
fn occurrence_lists_follow_clause_order() {
    let cs = clauses(vec![vec![1, -2], vec![-1, 2], vec![1, 2, 3]]);
    let (pos, neg) = occurrence_lists(&cs, 3);
    assert_eq!(pos, vec![vec![0, 2], vec![1, 2], vec![2]]);
    assert_eq!(neg, vec![vec![1], vec![0], vec![]]);
}
