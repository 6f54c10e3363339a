//! CNF formula types.
//!
//! - `Literal`: a variable with a polarity
//! - `Clause`: a disjunction of literals
//! - `CnfFormula`: a conjunction of clauses
//!
//! plus the mode a competition instance declares. Splitting a formula at its
//! independent components is `components`.

pub mod components;
pub mod dimacs;
pub mod lexer;
pub mod occ;
pub mod reread;
pub mod literal;
pub mod show_set;
pub mod space;
pub mod weights;
pub mod writer;
mod union_find;

pub use components::detect_components_in;

pub use literal::{EquivFold, Literal, VarId};
pub use show_set::{ShowMask, ShowSet};
pub use space::{Local, Original, Reduced, Space};
pub use weights::resolved::Weights;
pub use weights::{parse_rational_weight, ExactWeight, LiteralWeight, WeightTable};

use crate::text::same_text;
use vstd::prelude::*;

verus! {

/// A clause: a disjunction of literals.
///
/// Each variable must appear at most once. A clause built directly is taken at
/// its word, so a programmatic caller owes the uniqueness itself.
#[derive(Clone, Debug, PartialEq, Eq)]
pub struct Clause {
    /// The disjuncts.
    pub literals: Vec<Literal>,
}

impl Clause {
    /// Wraps `literals` as a `Clause`.
    pub fn new(literals: Vec<Literal>) -> (r: Self)
        ensures
            r.literals@ == literals@,
    {
        Clause { literals }
    }
}

/// What preprocessing must preserve.
///
/// The first four are the competition tracks and are the only tokens a `c t`
/// line may carry: `mc`, `wmc` (weighted), `pmc` (projected), `pwmc`
/// (projected weighted). [`Compile`](Self::Compile) preserves the function and
/// no header can declare it.
#[derive(Clone, Copy, Debug, PartialEq, Eq, Structural, Default)]
#[non_exhaustive]
pub enum Mode {
    /// Plain unweighted, unprojected model counting.
    #[default]
    Mc,
    /// Counts weighted by per-literal weights from `c p weight` lines.
    Wmc,
    /// Counting projected onto the `c p show` variable set.
    Pmc,
    /// Both projected and weighted.
    Pwmc,
    /// Preserve the function, not just a count.
    Compile,
}

/// The token naming a mode.
pub open spec fn mode_token(m: Mode) -> Seq<char> {
    match m {
        Mode::Mc => "mc"@,
        Mode::Wmc => "wmc"@,
        Mode::Pmc => "pmc"@,
        Mode::Pwmc => "pwmc"@,
        Mode::Compile => "compile"@,
    }
}

/// Every mode, in the order a message or a `--help` line offers them.
pub open spec fn all_modes() -> Seq<Mode> {
    seq![Mode::Mc, Mode::Wmc, Mode::Pmc, Mode::Pwmc, Mode::Compile]
}

/// The mode a `--mode` token names, if any.
pub open spec fn mode_named(s: Seq<char>) -> Option<Mode> {
    if s == "mc"@ {
        Some(Mode::Mc)
    } else if s == "wmc"@ {
        Some(Mode::Wmc)
    } else if s == "pmc"@ {
        Some(Mode::Pmc)
    } else if s == "pwmc"@ {
        Some(Mode::Pwmc)
    } else if s == "compile"@ {
        Some(Mode::Compile)
    } else {
        None
    }
}

/// Reading a mode's token back recovers the mode: [`Mode::parse_mode`] is
/// the exact inverse of [`Mode::token`].
pub proof fn lemma_mode_token_round_trip(m: Mode)
    ensures
        mode_named(mode_token(m)) == Some(m),
{
    reveal_strlit("mc");
    reveal_strlit("wmc");
    reveal_strlit("pmc");
    reveal_strlit("pwmc");
    reveal_strlit("compile");
    assert("mc"@.len() == 2);
    assert("wmc"@.len() == 3);
    assert("pmc"@.len() == 3);
    assert("pwmc"@.len() == 4);
    assert("compile"@.len() == 7);
    assert("wmc"@[0] != "pmc"@[0]);
}

impl Mode {
    /// Every `--mode` token, in table order.
    pub fn names() -> (r: Vec<&'static str>)
        ensures
            r.len() == 5,
            forall|i: int| 0 <= i < 5 ==> #[trigger] r[i]@ == mode_token(all_modes()[i]),
    {
        let mut v: Vec<&'static str> = Vec::new();
        v.push(Mode::Mc.token());
        v.push(Mode::Wmc.token());
        v.push(Mode::Pmc.token());
        v.push(Mode::Pwmc.token());
        v.push(Mode::Compile.token());
        v
    }

    /// Parses a `c t <type>` token: any [`Mode::names`] entry except
    /// `compile`, which names no competition track.
    pub(crate) fn parse_track(s: &str) -> (r: Option<Self>)
        ensures
            r == (match mode_named(s@) {
                Some(Mode::Compile) => None,
                other => other,
            }),
    {
        match Mode::parse_mode(s) {
            Some(Mode::Compile) => None,
            other => other,
        }
    }

    /// Parses a `--mode` token: any [`Mode::names`] entry. The inverse of
    /// [`Mode::token`].
    pub fn parse_mode(s: &str) -> (r: Option<Self>)
        ensures
            r == mode_named(s@),
    {
        if same_text(s, "mc") {
            Some(Mode::Mc)
        } else if same_text(s, "wmc") {
            Some(Mode::Wmc)
        } else if same_text(s, "pmc") {
            Some(Mode::Pmc)
        } else if same_text(s, "pwmc") {
            Some(Mode::Pwmc)
        } else if same_text(s, "compile") {
            Some(Mode::Compile)
        } else {
            None
        }
    }

    /// The token naming this mode, the exact inverse of [`Mode::parse_mode`].
    pub fn token(self) -> (r: &'static str)
        ensures
            r@ == mode_token(self),
    {
        match self {
            Mode::Mc => "mc",
            Mode::Wmc => "wmc",
            Mode::Pmc => "pmc",
            Mode::Pwmc => "pwmc",
            Mode::Compile => "compile",
        }
    }

    /// True for the two tracks whose count is weighted (`Wmc`, `Pwmc`).
    pub fn is_weighted(self) -> (r: bool)
        ensures
            r == (self == Mode::Wmc || self == Mode::Pwmc),
    {
        matches!(self, Mode::Wmc | Mode::Pwmc)
    }

    /// True for the two tracks whose count is projected (`Pmc`, `Pwmc`).
    pub fn is_projected(self) -> (r: bool)
        ensures
            r == (self == Mode::Pmc || self == Mode::Pwmc),
    {
        matches!(self, Mode::Pmc | Mode::Pwmc)
    }
}

/// CNF header metadata parsed from MCC `c t` / `c p show` / `c p weight`
/// meta-comment lines, returned alongside the [`CnfFormula`] by
/// [`CnfFormula::from_dimacs`]. A file without these lines yields the plain
/// model-counting reading. The metadata is expressed over the ORIGINAL DIMACS
/// variable ids.
#[derive(Debug)]
pub struct CnfMeta {
    pub(crate) track: Option<Mode>,
    pub(crate) show_vars: Option<ShowSet<Original>>,
    pub(crate) weights: Option<WeightTable>,
}

impl CnfMeta {
    /// The track a `c t` line named, if one did.
    pub closed spec fn track_spec(&self) -> Option<Mode> {
        self.track
    }

    /// The show set a `c p show` line declared, if one did.
    pub closed spec fn show_spec(&self) -> Option<ShowSet<Original>> {
        self.show_vars
    }

    /// The weights the `c p weight` lines declared, if any did.
    pub closed spec fn weights_spec(&self) -> Option<WeightTable> {
        self.weights
    }

    /// The metadata of a file with no meta-comment lines.
    pub fn plain() -> (r: Self)
        ensures
            r.track_spec() is None,
            r.show_spec() is None,
            r.weights_spec() is None,
    {
        CnfMeta { track: None, show_vars: None, weights: None }
    }

    /// The declared counting track; [`Mode::Mc`] when no `c t` line names
    /// one.
    pub fn mode(&self) -> (r: Mode)
        ensures
            r == match self.track_spec() {
                Some(m) => m,
                None => Mode::Mc,
            },
    {
        match self.track {
            Some(m) => m,
            None => Mode::Mc,
        }
    }

    /// The track a `c t` line named, or `None` when the file carries no such
    /// line — which keeps `c t mc` and a bare file apart.
    pub fn declared_track(&self) -> (r: Option<Mode>)
        ensures
            r == self.track_spec(),
    {
        self.track
    }

    /// The show set this file declares, or `None` when it carried no
    /// `c p show` line.
    pub fn declared_show_vars(&self) -> (r: Option<&ShowSet<Original>>)
        ensures
            match r {
                Some(s) => self.show_spec() == Some(*s),
                None => self.show_spec() is None,
            },
    {
        match &self.show_vars {
            Some(s) => Some(s),
            None => None,
        }
    }

    /// The weights this file declares, or `None` when it carried no
    /// `c p weight` line.
    pub fn declared_weights(&self) -> (r: Option<&WeightTable>)
        ensures
            match r {
                Some(w) => self.weights_spec() == Some(*w),
                None => self.weights_spec() is None,
            },
    {
        match &self.weights {
            Some(w) => Some(w),
            None => None,
        }
    }
}

/// A CNF formula: a conjunction of clauses.
///
/// `PartialEq`/`Eq` are structural — an identity check, not semantic
/// equivalence.
#[derive(Clone, Debug, PartialEq, Eq)]
pub struct CnfFormula {
    /// Declared variable count from the `p cnf` header, and the whole
    /// variable space.
    pub num_vars: u32,
    /// The conjuncts.
    pub clauses: Vec<Clause>,
}

/// Whether some clause of `clauses` is empty.
pub open spec fn has_empty_clause(clauses: Seq<Clause>) -> bool {
    exists|i: int| 0 <= i < clauses.len() && #[trigger] clauses[i].literals.len() == 0
}

/// Every literal of `clauses` names a variable of a space of `num_vars`.
pub open spec fn within_vars(clauses: Seq<Clause>, num_vars: int) -> bool {
    forall|i: int, j: int|
        0 <= i < clauses.len() && 0 <= j < clauses[i].literals.len()
            ==> #[trigger] clauses[i].literals[j].var.number() <= num_vars
}

impl CnfFormula {
    /// The refutation over `num_vars` variables: one empty clause.
    pub(crate) fn contradiction(num_vars: u32) -> (r: Self)
        ensures
            r.num_vars == num_vars,
            r.clauses.len() == 1,
            r.clauses[0].literals.len() == 0,
    {
        let mut clauses: Vec<Clause> = Vec::new();
        clauses.push(Clause::new(Vec::new()));
        CnfFormula { num_vars, clauses }
    }

    /// The refutation over `num_vars` variables as DIMACS can carry it: the
    /// two unit clauses `x1` and `¬x1`. Unlike the empty clause, it survives a
    /// write and a read.
    pub fn explicit_contradiction(num_vars: u32) -> (r: Self)
        requires
            num_vars >= 1,
        ensures
            r.num_vars == num_vars,
            r.clauses@.len() == 2,
            r.clauses@[0].literals@.len() == 1,
            r.clauses@[1].literals@.len() == 1,
            r.clauses@[0].literals@[0].var.number() == 1,
            r.clauses@[0].literals@[0].positive,
            r.clauses@[1].literals@[0].var.number() == 1,
            !r.clauses@[1].literals@[0].positive,
    {
        let x = VarId::from_idx(0);
        let mut pos: Vec<Literal> = Vec::new();
        pos.push(Literal::pos(x));
        let mut neg: Vec<Literal> = Vec::new();
        neg.push(Literal::neg(x));
        let mut clauses: Vec<Clause> = Vec::new();
        clauses.push(Clause::new(pos));
        clauses.push(Clause::new(neg));
        CnfFormula { num_vars, clauses }
    }

    /// Whether this formula carries a refutation.
    pub fn is_refuted(&self) -> (r: bool)
        ensures
            r == has_empty_clause(self.clauses@),
    {
        contains_empty_clause(self.clauses.as_slice())
    }
}

/// Whether `clauses` contains the empty clause — the form in which every pass
/// that derives a contradiction reports one.
pub(crate) fn contains_empty_clause(clauses: &[Clause]) -> (r: bool)
    ensures
        r == has_empty_clause(clauses@),
{
    let mut i: usize = 0;
    while i < clauses.len()
        invariant
            i <= clauses.len(),
            forall|k: int| 0 <= k < i ==> clauses@[k].literals.len() != 0,
        decreases clauses.len() - i,
    {
        if clauses[i].literals.len() == 0 {
            return true;
        }
        i = i + 1;
    }
    false
}

} // verus!
