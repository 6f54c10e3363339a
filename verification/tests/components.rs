//! Splitting a formula at its independent components, and extracting one.

use vitri::cnf::{detect_components_in, Clause, CnfFormula, Literal, VarId};
use vitri::cnf::{Original, ShowSet};
use vitri::component::key::ComponentKey;
use vitri::component::local_view;

fn make_formula(num_vars: u32, clauses: Vec<Vec<i32>>) -> CnfFormula {
    CnfFormula {
        num_vars,
        clauses: clauses
            .into_iter()
            .map(|c| Clause::new(c.into_iter().map(Literal::from_dimacs).collect()))
            .collect(),
    }
}

#[test]
fn disjoint_clauses_split_smallest_group_first() {
    let f = make_formula(6, vec![vec![4, 5], vec![1, 2], vec![5, -6], vec![2, 3], vec![-4, 6]]);
    let groups = f.detect_components().expect("two components");
    assert_eq!(groups, vec![vec![1, 3], vec![0, 2, 4]]);
}

#[test]
fn equal_sized_groups_order_by_smallest_variable() {
    let f = make_formula(4, vec![vec![3, 4], vec![1, 2]]);
    assert_eq!(f.detect_components(), Some(vec![vec![1], vec![0]]));
}

#[test]
fn one_component_or_one_clause_gives_none() {
    assert_eq!(make_formula(3, vec![vec![1, 2], vec![2, 3]]).detect_components(), None);
    assert_eq!(make_formula(3, vec![vec![1, 3]]).detect_components(), None);
    assert_eq!(detect_components_in(&[], 0), None);
}

#[test]
fn an_extracted_component_is_renumbered_contiguously() {
    let f = make_formula(9, vec![vec![7, -2], vec![4], vec![-7, 9]]);
    let (sub, local_to_global) = f.extract_component(&[2, 0]);
    let globals: Vec<u32> = local_to_global.iter().map(|v| v.get()).collect();
    assert_eq!(globals, vec![2, 7, 9]);
    assert_eq!(sub, make_formula(3, vec![vec![-2, 3], vec![2, -1]]));
    for (c, &ci) in sub.clauses.iter().zip([2usize, 0].iter()) {
        for (local, global) in c.literals.iter().zip(f.clauses[ci].literals.iter()) {
            assert_eq!(local_to_global[local.var.idx()], global.var);
            assert_eq!(local.positive, global.positive);
        }
    }
    let (empty, none) = f.extract_component(&[]);
    assert_eq!(empty.num_vars, 0);
    assert!(none.is_empty());
    let _ = VarId::new(1);
}

#[test]
fn a_local_view_restricts_the_show_mask_to_the_component() {
    let f = make_formula(6, vec![vec![1, 2], vec![4, -6], vec![2, 3]]);
    let show: ShowSet<Original> = ShowSet::from_dimacs_ids(&[3, 6]).unwrap();
    let mask = show.mask(6);
    let view = local_view(&f, &[0, 2], Some(&mask));
    assert_eq!(view.formula, make_formula(3, vec![vec![1, 2], vec![2, 3]]));
    assert_eq!(view.local_to_outer.iter().map(|v| v.get()).collect::<Vec<_>>(), vec![1, 2, 3]);
    assert_eq!(view.show.expect("a mask was given").as_dimacs(), &[3]);
    let plain = local_view(&f, &[1], None);
    assert!(plain.show.is_none());
    assert_eq!(plain.formula, make_formula(2, vec![vec![1, -2]]));
}

#[test]
fn the_explicit_contradiction_reads_back_and_is_no_empty_clause() {
    let c = CnfFormula::explicit_contradiction(4);
    assert_eq!(c, make_formula(4, vec![vec![1], vec![-1]]));
    assert!(!c.is_refuted());
    assert!(make_formula(2, vec![vec![1], vec![]]).is_refuted());
    let (back, _) = CnfFormula::from_dimacs(&c.write_dimacs()).unwrap();
    assert_eq!(back, c);
}

#[test]
fn a_component_key_ignores_clause_and_literal_order() {
    let a = make_formula(3, vec![vec![1, -2], vec![3], vec![-1, 2, 3]]);
    let b = make_formula(3, vec![vec![3, 2, -1], vec![-2, 1], vec![3]]);
    let ka = ComponentKey::new(&a, None);
    let kb = ComponentKey::new(&b, None);
    assert_eq!(ka.num_vars, 3);
    assert_eq!(ka.clauses, kb.clauses);
    assert_eq!(ka.clauses, vec![vec![(1, false), (2, true), (3, true)], vec![(1, true), (2, false)], vec![(3, true)]]);
    let c = make_formula(3, vec![vec![1, 2], vec![3], vec![-1, 2, 3]]);
    assert_ne!(ComponentKey::new(&c, None).clauses, ka.clauses);
}

#[test]
fn the_groups_of_a_split_share_no_variable_and_no_clause() {
    let f = make_formula(6, vec![vec![4, 5], vec![1, 2], vec![5, -6], vec![2, 3], vec![-4, 6]]);
    let groups = f.detect_components().expect("two components");
    let vars_of = |g: &Vec<usize>| -> Vec<u32> {
        let mut vs: Vec<u32> = g.iter().flat_map(|&ci| f.clauses[ci].literals.iter().map(|l| l.var.get())).collect();
        vs.sort_unstable();
        vs.dedup();
        vs
    };
    let (a, b) = (vars_of(&groups[0]), vars_of(&groups[1]));
    assert!(a.iter().all(|v| !b.contains(v)));
    assert!(groups[0].iter().all(|ci| !groups[1].contains(ci)));
    assert_eq!(groups[0].len() + groups[1].len(), f.clauses.len());
}

#[test]
fn empty_clauses_sort_after_an_equal_group_of_any_variable() {
    let f = make_formula(2, vec![vec![], vec![2], vec![], vec![-2]]);
    assert_eq!(f.detect_components(), Some(vec![vec![1, 3], vec![0, 2]]));
    let f = make_formula(3, vec![vec![1], vec![], vec![3]]);
    assert_eq!(f.detect_components(), Some(vec![vec![0], vec![2], vec![1]]));
}
