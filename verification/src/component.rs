//! A component seen from inside: the clauses a split cut out of a formula,
//! renumbered to their own local space, the show mask read over that space,
//! and the map back out.
//!
//! The vtree a component is built over and the CNF written beside that vtree
//! are the same formula in the same numbering, and the `c p show` line of that
//! CNF is the same restriction of the outer show set; deriving all of it in one
//! place keeps those agreements true by construction.

pub mod key;

use crate::cnf::components::{localized, mentions, numbers};
use crate::cnf::show_set::{canonical, shows};
use crate::cnf::{CnfFormula, Local, ShowMask, ShowSet, VarId};
use vstd::prelude::*;

verus! {

/// A component's clauses renumbered to a dense local space, the outer show
/// set read over that space, and the map back out.
pub struct LocalView {
    /// The component's clauses, renumbered to `1..=K`.
    pub formula: CnfFormula,
    /// The outer show mask read over that space, or `None` when the instance
    /// declares none.
    pub show: Option<ShowSet<Local>>,
    /// Local variable `v` stands for outer variable `local_to_outer[v.idx()]`.
    pub local_to_outer: Vec<VarId>,
}

/// The [`LocalView`] of the component `clause_indices` cuts out of `formula`,
/// under the outer show mask `show` (`None` when the instance is unprojected):
/// [`CnfFormula::extract_component`], and the mask restricted through the map
/// it returns.
pub fn local_view(formula: &CnfFormula, clause_indices: &[usize], show: Option<&ShowMask>) -> (r: LocalView)
    requires
        forall|k: int| 0 <= k < clause_indices@.len() ==> (#[trigger] clause_indices@[k]) < formula.clauses@.len(),
    ensures
        canonical(numbers(r.local_to_outer@)),
        forall|x: u32| #[trigger] numbers(r.local_to_outer@).contains(x) <==> mentions(formula.clauses@, clause_indices@, x),
        r.formula.num_vars == r.local_to_outer@.len(),
        r.formula.clauses@.len() == clause_indices@.len(),
        forall|k: int| 0 <= k < clause_indices@.len()
            ==> (#[trigger] r.formula.clauses@[k]).literals@.len() == formula.clauses@[clause_indices@[k] as int].literals@.len(),
        forall|k: int, j: int| 0 <= k < clause_indices@.len() && 0 <= j < r.formula.clauses@[k].literals@.len()
            ==> localized(r.local_to_outer@, #[trigger] r.formula.clauses@[k].literals@[j], formula.clauses@[clause_indices@[k] as int].literals@[j]),
        match show {
            None => r.show is None,
            Some(m) => r.show matches Some(s) && forall|x: u32| #[trigger] s@.contains(x) <==> (1 <= x <= r.local_to_outer@.len() && shows(
                m@,
                r.local_to_outer@[x - 1].number() as int,
            )),
        },
{
    let (sub, local_to_outer) = formula.extract_component(clause_indices);
    let restricted = match show {
        Some(m) => Some(m.restrict(local_to_outer.as_slice())),
        None => None,
    };
    LocalView { formula: sub, show: restricted, local_to_outer }
}

} // verus!
