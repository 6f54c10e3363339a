//! The two smallest CNF types: a variable identifier and a literal over it.

use vstd::prelude::*;

verus! {

/// A variable identifier: DIMACS variable `n`, for `n` at least 1.
///
/// Zero is not a variable — in DIMACS it ends a clause — and this type cannot
/// hold it: [`VarId::new`] and [`VarId::try_from_dimacs`] are where a number
/// that might be zero turns into a variable. A table sized by variables is
/// indexed through [`VarId::idx`], which is `n - 1`.
#[derive(Copy, Clone, PartialEq, Eq, Structural, Hash, Debug, PartialOrd, Ord)]
pub struct VarId(u32);

impl VarId {
    #[verifier::type_invariant]
    spec fn names_a_variable(self) -> bool {
        self.0 >= 1
    }

    /// The DIMACS number of this variable.
    pub closed spec fn number(self) -> u32 {
        self.0
    }

    /// A variable is its number: two with the same number are the same.
    pub proof fn lemma_number_determines(self, other: VarId)
        requires
            self.number() == other.number(),
        ensures
            self == other,
    {
    }

    /// The variable numbered `n`, or `None` when `n` is 0, which names none.
    pub fn new(n: u32) -> (r: Option<Self>)
        ensures
            match r {
                Some(v) => n != 0 && v.number() == n,
                None => n == 0,
            },
    {
        if n == 0 {
            None
        } else {
            Some(VarId(n))
        }
    }

    /// This variable's number.
    pub fn get(self) -> (r: u32)
        ensures
            r == self.number(),
            r >= 1,
    {
        proof {
            use_type_invariant(&self);
        }
        self.0
    }

    /// Every variable of a space of `num_vars` variables, ascending — 1
    /// through `num_vars`, and nothing for a space of none.
    pub fn all(num_vars: u32) -> (r: Vec<Self>)
        ensures
            r.len() == num_vars,
            forall|i: int| 0 <= i < r.len() ==> #[trigger] r[i].number() == i + 1,
    {
        let mut out: Vec<Self> = Vec::new();
        let mut n: u32 = 0;
        while n < num_vars
            invariant
                n <= num_vars,
                out.len() == n,
                forall|i: int| 0 <= i < out.len() ==> #[trigger] out[i].number() == i + 1,
            decreases num_vars - n,
        {
            n = n + 1;
            out.push(VarId(n));
        }
        out
    }

    /// The position of this variable in a table with one slot per variable:
    /// `n - 1`.
    pub fn idx(self) -> (r: usize)
        ensures
            r == self.number() - 1,
            self.number() >= 1,
    {
        proof {
            use_type_invariant(&self);
        }
        (self.0 - 1) as usize
    }

    /// The variable at position `idx` of a table with one slot per variable:
    /// the inverse of [`VarId::idx`]. The variable after `u32::MAX - 1` has no
    /// 32-bit number, so `idx` must lie below `u32::MAX`.
    pub fn from_idx(idx: usize) -> (r: Self)
        requires
            idx < u32::MAX,
        ensures
            r.number() == idx + 1,
    {
        VarId((idx + 1) as u32)
    }

    /// This variable's number as the signed integer DIMACS writes it.
    pub fn to_dimacs(self) -> (r: i32)
        ensures
            r == self.number() as i32,
    {
        self.0 as i32
    }

    /// The variable a DIMACS integer names, whatever its sign, for an integer
    /// already known to name one: neither `0` nor `i32::MIN`.
    pub fn from_dimacs(n: i32) -> (r: Self)
        requires
            n != 0,
            n != i32::MIN,
        ensures
            r.number() == if n < 0 { -n } else { n as int },
    {
        let named: u32 = if n < 0 { (-n) as u32 } else { n as u32 };
        VarId(named)
    }

    /// The variable a DIMACS integer names, or `None` where it names none:
    /// `0`, and `i32::MIN`, whose magnitude no DIMACS integer can write.
    pub fn try_from_dimacs(n: i32) -> (r: Option<Self>)
        ensures
            match r {
                Some(v) => n != 0 && n != i32::MIN && v.number() == if n < 0 { -n } else { n as int },
                None => n == 0 || n == i32::MIN,
            },
    {
        if n == i32::MIN {
            None
        } else {
            let named: u32 = if n < 0 { (-n) as u32 } else { n as u32 };
            VarId::new(named)
        }
    }
}

/// A literal: a variable with a polarity.
#[derive(Copy, Clone, PartialEq, Eq, Structural, Hash, Debug)]
pub struct Literal {
    /// The variable this literal refers to.
    pub var: VarId,
    /// `true` for a positive literal, `false` for a negated one.
    pub positive: bool,
}

/// The signed DIMACS integer a literal is written as.
pub open spec fn literal_dimacs(lit: Literal) -> int {
    if lit.positive {
        lit.var.number() as int
    } else {
        -(lit.var.number() as int)
    }
}

/// A literal is its DIMACS integer: two literals over variables numbered from
/// 1 that write as the same integer are the same literal, so
/// [`Literal::from_dimacs`] undoes [`Literal::to_dimacs`].
pub proof fn lemma_literal_dimacs_determines(a: Literal, b: Literal)
    requires
        a.var.number() >= 1,
        b.var.number() >= 1,
        literal_dimacs(a) == literal_dimacs(b),
    ensures
        a == b,
{
    a.var.lemma_number_determines(b.var);
}

impl Literal {
    /// Construct a literal over `var` with the given polarity.
    pub fn new(var: VarId, positive: bool) -> (r: Self)
        ensures
            r == (Literal { var, positive }),
    {
        Literal { var, positive }
    }

    /// The positive literal over `var`.
    pub fn pos(var: VarId) -> (r: Self)
        ensures
            r == (Literal { var, positive: true }),
    {
        Literal::new(var, true)
    }

    /// The negated literal over `var`.
    pub fn neg(var: VarId) -> (r: Self)
        ensures
            r == (Literal { var, positive: false }),
    {
        Literal::new(var, false)
    }

    /// This literal with its polarity flipped.
    pub fn negated(self) -> (r: Self)
        ensures
            r == (Literal { var: self.var, positive: !self.positive }),
    {
        Literal { var: self.var, positive: !self.positive }
    }

    /// This literal as a signed DIMACS integer: the variable's number,
    /// negative for a negated literal. A variable numbered above `i32::MAX`
    /// has no DIMACS spelling.
    pub fn to_dimacs(self) -> (r: i32)
        requires
            self.var.number() <= i32::MAX,
        ensures
            r == literal_dimacs(self),
    {
        let var = self.var.to_dimacs();
        if self.positive {
            var
        } else {
            -var
        }
    }

    /// The literal a signed DIMACS integer names: the magnitude is the
    /// variable, and a negative value denotes a negated literal. The inverse of
    /// [`Literal::to_dimacs`], for an integer that names a variable.
    pub fn from_dimacs(n: i32) -> (r: Self)
        requires
            n != 0,
            n != i32::MIN,
        ensures
            literal_dimacs(r) == n,
            r.positive == (n > 0),
    {
        let var = VarId::from_dimacs(n);
        if n > 0 {
            Literal::pos(var)
        } else {
            Literal::neg(var)
        }
    }
}

/// One variable merged away as equivalent to another: `eliminated ≡
/// survivor`, where `survivor` is a literal, so a negative one means
/// `eliminated` is equivalent to the survivor's negation.
#[derive(Clone, Copy, Debug, PartialEq, Eq, Structural)]
pub struct EquivFold {
    /// The variable that stops occurring.
    pub eliminated: VarId,
    /// The literal it is equivalent to, over a variable that survives.
    pub survivor: Literal,
}

} // verus!
