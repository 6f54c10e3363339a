//! The result of one Arjun reduction, as the count-preserving chain reads it.

use super::VarMap;
use crate::cnf::{Clause, CnfFormula, EquivFold, Literal, Reduced, ShowSet};
use vstd::prelude::*;

verus! {

/// What a plain (`mc`) Arjun reduction produced.
#[derive(Debug)]
pub struct ArjunResult {
    /// The reduced formula.
    pub formula: CnfFormula,
    /// The power of two the reduced count is multiplied by.
    pub multiplier_exp: u32,
    /// Literals forced in every model.
    pub backbone: Vec<Literal>,
    /// Variables merged away as equivalent to another.
    pub equiv: Vec<EquivFold>,
    /// Clauses the solver learnt, over the reduced formula.
    pub learnt_clauses: Vec<Clause>,
    /// An independent support of the reduced formula.
    pub independent_support: ShowSet<Reduced>,
    /// Input variable → reduced literal, for the formula Arjun was handed.
    pub input_to_reduced_lit: VarMap<Reduced, Reduced>,
}

} // verus!
