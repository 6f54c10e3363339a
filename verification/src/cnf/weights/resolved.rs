//! The literal weights a count over one named formula is taken under: a
//! `(w⁻, w⁺)` pair per variable, every variable present, in the space `S`
//! names. Built from a parsed [`WeightTable`] or from literal–weight pairs,
//! with weight 1 wherever nothing was said; written back as pairs or as the
//! rows a `c p weight` header is written from.

use std::marker::PhantomData;

use num_bigint::{BigInt, BigUint, Sign};
use num_rational::BigRational;
use rustc_hash::FxHashSet;

use super::{lemma_reduced_parts, lemma_reduced_parts_unique, lowest_terms_spelling, parts_ok, reduced_parts, signed, parts_of, rows_view, ExactWeight, LiteralWeight, WeightParts, WeightTable};
use crate::cnf::dimacs::last_weight;
use crate::cnf::lexer::digits_value;
use crate::cnf::{EquivFold, Literal, Original, Reduced, Space, VarId};
use vstd::prelude::*;

verus! {

/// The positive DIMACS literal over 0-based variable `i`.
pub open spec fn dimacs_pos(i: int) -> i32 {
    (i + 1) as i32
}

/// The negative DIMACS literal over 0-based variable `i`.
pub open spec fn dimacs_neg(i: int) -> i32 {
    (-(i + 1)) as i32
}

/// Whether `p` is the pair `read` answered for 0-based variable `i`: the
/// weight of its negative literal, then of its positive one.
pub open spec fn read_answers<F: Fn(i32) -> Option<ExactWeight>>(read: F, i: int, p: (WeightParts, WeightParts)) -> bool {
    exists|wn: ExactWeight, wp: ExactWeight|
        #![trigger call_ensures(read, (dimacs_pos(i),), Some(wp)), call_ensures(read, (dimacs_neg(i),), Some(wn))]
        call_ensures(read, (dimacs_pos(i),), Some(wp))
        && call_ensures(read, (dimacs_neg(i),), Some(wn))
        && p == (parts_of(wn), parts_of(wp))
}

/// The numbers of a list of variables.
pub open spec fn numbers_of(vars: Seq<VarId>) -> Seq<u32> {
    vars.map_values(|v: VarId| v.number())
}

/// Whether the pair at position `i` is picked: its two weights differ
/// (`unequal`), or one of them is not 1 (otherwise).
pub open spec fn picks(p: (WeightParts, WeightParts), unequal: bool) -> bool {
    if unequal {
        !same_rational(p.0, p.1)
    } else {
        !(same_rational(p.0, one_parts()) && same_rational(p.1, one_parts()))
    }
}

/// The numbers of the variables among the first `n` that are picked, in
/// order.
pub open spec fn picked_upto(t: Seq<(WeightParts, WeightParts)>, n: int, unequal: bool) -> Seq<u32>
    decreases n,
{
    if n <= 0 {
        Seq::empty()
    } else if picks(t[n - 1], unequal) {
        picked_upto(t, n - 1, unequal).push(n as u32)
    } else {
        picked_upto(t, n - 1, unequal)
    }
}

/// The table as signed-literal rows, both polarities of every variable,
/// positive first, over the first `n` variables.
pub open spec fn dimacs_rows(t: Seq<(WeightParts, WeightParts)>, n: int) -> Seq<(i32, WeightParts)>
    decreases n,
{
    if n <= 0 {
        Seq::empty()
    } else {
        dimacs_rows(t, n - 1) + seq![(n as i32, t[n - 1].1), ((-n) as i32, t[n - 1].0)]
    }
}

/// The rows a record and a `c p weight` header are written from, over the
/// first `n` variables: the literals of [`dimacs_rows`], each weight spelt.
pub open spec fn record_rows(t: Seq<(WeightParts, WeightParts)>, n: int) -> Seq<(i32, Seq<char>)>
    decreases n,
{
    if n <= 0 {
        Seq::empty()
    } else {
        let (wn, wp) = t[n - 1];
        record_rows(t, n - 1) + seq![
            (n as i32, lowest_terms_spelling(wp.0, wp.1, wp.2)),
            ((-n) as i32, lowest_terms_spelling(wn.0, wn.1, wn.2)),
        ]
    }
}

/// Weight rows as literal and spelling.
pub open spec fn rows_spelt(rows: Seq<LiteralWeight>) -> Seq<(i32, Seq<char>)> {
    rows.map_values(|w: LiteralWeight| (w.literal, w.weight@))
}

/// A table of rationals holds a rational at each position.
proof fn lemma_rational_at(t: Seq<(WeightParts, WeightParts)>, k: int)
    requires
        all_rational(t),
        0 <= k < t.len(),
    ensures
        parts_ok(t[k].0),
        parts_ok(t[k].1),
{
    let p = t[k];
    assert(parts_ok(p.0) && parts_ok(p.1));
}

/// Weight 1 is a rational.
proof fn lemma_one_rational()
    ensures
        parts_ok(one_parts()),
{
    assert(crate::cnf::lexer::is_digit(49u8));
    assert(one_parts().2[0] != 48);
}

/// The parts of weight 1.
pub open spec fn one_parts() -> WeightParts {
    (false, seq![49u8], seq![49u8])
}

/// A pair of weights by its parts.
pub open spec fn pair_parts(p: (ExactWeight, ExactWeight)) -> (WeightParts, WeightParts) {
    (parts_of(p.0), parts_of(p.1))
}

/// The signed numerator a weight's parts spell.
pub open spec fn weight_num(p: WeightParts) -> int {
    if p.0 {
        -(digits_value(p.1) as int)
    } else {
        digits_value(p.1) as int
    }
}

/// The denominator a weight's parts spell.
pub open spec fn weight_den(p: WeightParts) -> int {
    digits_value(p.2) as int
}

/// Two weights are the same rational.
pub open spec fn same_rational(a: WeightParts, b: WeightParts) -> bool {
    weight_num(a) * weight_den(b) == weight_num(b) * weight_den(a)
}

/// Every weight of a table describes a rational.
pub open spec fn all_rational(t: Seq<(WeightParts, WeightParts)>) -> bool {
    forall|i: int| #![trigger t[i]] 0 <= i < t.len() ==> parts_ok(t[i].0) && parts_ok(t[i].1)
}

/// The weight a literal–weight listing gives `lit`: the last one naming it,
/// else 1.
pub open spec fn listed_or_one(rows: Seq<(i32, WeightParts)>, lit: int) -> WeightParts {
    match last_weight(rows, lit) {
        Some(p) => p,
        None => one_parts(),
    }
}

/// The weight a listing gives the negative literal of the variable at
/// position `i`: the last pair naming it, else 1. A variable whose negative
/// literal has no `i32` spelling is named by no pair.
pub open spec fn listed_negative(rows: Seq<(i32, WeightParts)>, i: int) -> WeightParts {
    if i + 1 > i32::MAX {
        one_parts()
    } else {
        listed_or_one(rows, -(i + 1))
    }
}

/// The weight a table declares for `lit`, else 1.
pub open spec fn declared_or_one(t: WeightTable, lit: int) -> WeightParts {
    match t.declared(lit) {
        Some(w) => parts_of(w),
        None => one_parts(),
    }
}

/// The product of two weights in lowest terms: the product of the
/// numerators over the product of the denominators, reduced.
pub open spec fn rational_product(a: WeightParts, b: WeightParts) -> WeightParts {
    reduced_parts(a.0 != b.0, digits_value(a.1) * digits_value(b.1), digits_value(a.2) * digits_value(b.2))
}

/// `rustc-hash`'s hasher builder, a unit struct with no state.
#[verifier::external_type_specification]
#[verifier::external_body]
pub struct ExFxBuildHasher(rustc_hash::FxBuildHasher);

/// An empty `FxHashSet`, through `Default`.
#[verifier::external_body]
fn fx_set_new() -> (r: FxHashSet<u32>)
    ensures
        r@ == Set::<u32>::empty(),
{
    FxHashSet::default()
}

/// `HashSet::insert`: afterwards the set holds `v` beside what it held.
#[verifier::external_body]
fn fx_set_insert(s: &mut FxHashSet<u32>, v: u32)
    ensures
        final(s)@ == old(s)@.insert(v),
{
    s.insert(v);
}

/// Whether two weights are the same rational, through `BigRational`'s
/// equality, which compares values.
#[verifier::external_body]
fn same_value(a: &ExactWeight, b: &ExactWeight) -> (r: bool)
    requires
        parts_ok(parts_of(*a)),
        parts_ok(parts_of(*b)),
    ensures
        r == same_rational(parts_of(*a), parts_of(*b)),
{
    let big = |w: &ExactWeight| BigRational::new(
        BigInt::from_biguint(if w.negative { Sign::Minus } else { Sign::Plus }, BigUint::parse_bytes(&w.numerator, 10).unwrap_or_default()),
        BigUint::parse_bytes(&w.denominator, 10).unwrap_or_default().into(),
    );
    big(a) == big(b)
}

/// The product of two weights through `BigRational` multiplication, read
/// back as sign and digits as `num-bigint` prints them. `Mul` cancels common
/// factors crosswise and builds the result with `Ratio::new`, which reduces
/// it to lowest terms with a positive denominator: the product of the values,
/// reduced.
#[verifier::external_body]
fn product(a: &ExactWeight, b: &ExactWeight) -> (r: ExactWeight)
    requires
        parts_ok(parts_of(*a)),
        parts_ok(parts_of(*b)),
    ensures
        parts_of(r) == rational_product(parts_of(*a), parts_of(*b)),
{
    let big = |w: &ExactWeight| BigRational::new(
        BigInt::from_biguint(if w.negative { Sign::Minus } else { Sign::Plus }, BigUint::parse_bytes(&w.numerator, 10).unwrap_or_default()),
        BigUint::parse_bytes(&w.denominator, 10).unwrap_or_default().into(),
    );
    let p = big(a) * big(b);
    let (n, d) = (p.numer().magnitude().to_string(), p.denom().magnitude().to_string());
    ExactWeight { negative: p.numer().sign() == Sign::Minus, numerator: n.into_bytes(), denominator: d.into_bytes() }
}

/// The product of two rational weights: a rational weight, the product of
/// their values, and the same for any weights of the same two values.
fn multiply(a: &ExactWeight, b: &ExactWeight) -> (r: ExactWeight)
    requires
        parts_ok(parts_of(*a)),
        parts_ok(parts_of(*b)),
    ensures
        parts_of(r) == rational_product(parts_of(*a), parts_of(*b)),
        forall|a2: WeightParts, b2: WeightParts|
            parts_ok(a2) && parts_ok(b2) && same_rational(parts_of(*a), a2) && same_rational(parts_of(*b), b2)
                ==> #[trigger] rational_product(a2, b2) == parts_of(r),
        parts_ok(parts_of(r)),
        weight_num(parts_of(r)) * weight_den(parts_of(*a)) * weight_den(parts_of(*b)) == weight_num(parts_of(*a))
            * weight_num(parts_of(*b)) * weight_den(parts_of(r)),
{
    let r = product(a, b);
    proof {
        lemma_product(parts_of(*a), parts_of(*b), parts_of(*a), parts_of(*b));
        assert forall|a2: WeightParts, b2: WeightParts|
            parts_ok(a2) && parts_ok(b2) && same_rational(parts_of(*a), a2) && same_rational(parts_of(*b), b2)
                implies #[trigger] rational_product(a2, b2) == parts_of(r) by {
            lemma_product(parts_of(*a), parts_of(*b), a2, b2);
        }
    }
    r
}

/// The product of two rational weights is a rational weight whose value is
/// the product of theirs, and weights of the same values have the same
/// product.
pub proof fn lemma_product(a: WeightParts, b: WeightParts, a2: WeightParts, b2: WeightParts)
    requires
        parts_ok(a),
        parts_ok(b),
        parts_ok(a2),
        parts_ok(b2),
    ensures
        parts_ok(rational_product(a, b)),
        weight_num(rational_product(a, b)) * weight_den(a) * weight_den(b) == weight_num(a) * weight_num(b)
            * weight_den(rational_product(a, b)),
        same_rational(a, a2) && same_rational(b, b2) ==> rational_product(a2, b2) == rational_product(a, b),
{
    let (na, da, nb, db) = (digits_value(a.1), digits_value(a.2), digits_value(b.1), digits_value(b.2));
    lemma_den_positive(a);
    lemma_den_positive(b);
    lemma_den_positive(a2);
    lemma_den_positive(b2);
    assert(da * db > 0) by (nonlinear_arith)
        requires
            da > 0,
            db > 0,
    ;
    lemma_reduced_parts(a.0 != b.0, na * nb, da * db);
    let r = rational_product(a, b);
    assert(signed(a.0 != b.0, na * nb) == weight_num(a) * weight_num(b)) by (nonlinear_arith)
        requires
            weight_num(a) == if a.0 { -(na as int) } else { na as int },
            weight_num(b) == if b.0 { -(nb as int) } else { nb as int },
            signed(a.0 != b.0, na * nb) == if a.0 != b.0 { -((na * nb) as int) } else { (na * nb) as int },
    ;
    assert(weight_num(r) * weight_den(a) * weight_den(b) == weight_num(r) * ((da * db) as int)) by (nonlinear_arith)
        requires
            weight_den(a) == da,
            weight_den(b) == db,
    ;
    if same_rational(a, a2) && same_rational(b, b2) {
        let (na2, da2, nb2, db2) = (digits_value(a2.1), digits_value(a2.2), digits_value(b2.1), digits_value(b2.2));
        assert(da2 * db2 > 0) by (nonlinear_arith)
            requires
                da2 > 0,
                db2 > 0,
        ;
        assert(signed(a2.0 != b2.0, na2 * nb2) == weight_num(a2) * weight_num(b2)) by (nonlinear_arith)
            requires
                weight_num(a2) == if a2.0 { -(na2 as int) } else { na2 as int },
                weight_num(b2) == if b2.0 { -(nb2 as int) } else { nb2 as int },
                signed(a2.0 != b2.0, na2 * nb2) == if a2.0 != b2.0 { -((na2 * nb2) as int) } else { (na2 * nb2) as int },
        ;
        assert(weight_num(a2) * weight_num(b2) * ((da * db) as int) == weight_num(a) * weight_num(b) * ((da2 * db2) as int))
            by (nonlinear_arith)
            requires
                weight_num(a) * weight_den(a2) == weight_num(a2) * weight_den(a),
                weight_num(b) * weight_den(b2) == weight_num(b2) * weight_den(b),
                weight_den(a) == da,
                weight_den(b) == db,
                weight_den(a2) == da2,
                weight_den(b2) == db2,
        ;
        lemma_reduced_parts_unique(a2.0 != b2.0, na2 * nb2, da2 * db2, a.0 != b.0, na * nb, da * db);
    }
}

/// A rational weight's denominator is positive.
proof fn lemma_den_positive(p: WeightParts)
    requires
        parts_ok(p),
    ensures
        digits_value(p.2) > 0,
{
    super::lemma_nonzero_digits(p.2);
}

/// The table with the eliminated variable's pair `(en, ep)` multiplied into
/// its survivor `surv`'s pair: straight through for `e ≡ surv`, swapped for
/// `e ≡ ¬surv`.
pub open spec fn folded(t: Seq<(WeightParts, WeightParts)>, pair: (WeightParts, WeightParts), surv: Literal) -> Seq<(WeightParts, WeightParts)> {
    let s = surv.var.number() - 1;
    let (en, ep) = pair;
    let (sn, sp) = t[s];
    if surv.positive {
        t.update(s, (rational_product(sn, en), rational_product(sp, ep)))
    } else {
        t.update(s, (rational_product(sn, ep), rational_product(sp, en)))
    }
}

/// The table after folding each of `folds` in turn, each eliminated
/// variable's current pair into its survivor.
pub open spec fn folded_all(t: Seq<(WeightParts, WeightParts)>, folds: Seq<EquivFold>) -> Seq<(WeightParts, WeightParts)>
    decreases folds.len(),
{
    if folds.len() == 0 {
        t
    } else {
        let before = folded_all(t, folds.drop_last());
        let f = folds.last();
        folded(before, before[f.eliminated.number() - 1], f.survivor)
    }
}

impl ExactWeight {
    /// Weight 1.
    pub fn one() -> (r: Self)
        ensures
            parts_of(r) == one_parts(),
    {
        let mut n: Vec<u8> = Vec::new();
        n.push(49);
        let mut d: Vec<u8> = Vec::new();
        d.push(49);
        proof {
            assert(n@ =~= seq![49u8]);
            assert(d@ =~= seq![49u8]);
        }
        ExactWeight { negative: false, numerator: n, denominator: d }
    }
}

/// A pair of weights, digit for digit.
fn duplicate_pair(p: &(ExactWeight, ExactWeight)) -> (r: (ExactWeight, ExactWeight))
    ensures
        pair_parts(r) == pair_parts(*p),
{
    (p.0.duplicate(), p.1.duplicate())
}

/// The literal weights of one formula's variables: `(w⁻, w⁺)` per variable,
/// in order, in the space `S` names.
pub struct Weights<S: Space>(Vec<(ExactWeight, ExactWeight)>, PhantomData<S>);

impl<S: Space> View for Weights<S> {
    type V = Seq<(WeightParts, WeightParts)>;

    closed spec fn view(&self) -> Seq<(WeightParts, WeightParts)> {
        self.0@.map_values(|p: (ExactWeight, ExactWeight)| pair_parts(p))
    }
}

impl<S: Space> Weights<S> {
    /// Weight 1 both ways for each of `num_vars` variables: the unweighted
    /// instance in the weighted ring.
    pub fn uniform(num_vars: usize) -> (r: Self)
        ensures
            r@.len() == num_vars,
            forall|i: int| 0 <= i < num_vars ==> #[trigger] r@[i] == (one_parts(), one_parts()),
    {
        let mut v: Vec<(ExactWeight, ExactWeight)> = Vec::new();
        let mut n: usize = 0;
        while n < num_vars
            invariant
                n <= num_vars,
                v@.len() == n,
                forall|i: int| 0 <= i < n ==> #[trigger] pair_parts(v@[i]) == (one_parts(), one_parts()),
            decreases num_vars - n,
        {
            v.push((ExactWeight::one(), ExactWeight::one()));
            n = n + 1;
        }
        let r = Weights(v, PhantomData);
        proof {
            assert forall|i: int| 0 <= i < num_vars implies #[trigger] r@[i] == (one_parts(), one_parts()) by {
                assert(r@[i] == pair_parts(v@[i]));
            }
        }
        r
    }

    /// The table over no variables: what an unweighted track carries.
    pub fn empty() -> (r: Self)
        ensures
            r@.len() == 0,
    {
        Weights(Vec::new(), PhantomData)
    }

    /// How many variables the table covers.
    pub fn len(&self) -> (r: usize)
        ensures
            r == self@.len(),
    {
        self.0.len()
    }

    /// Whether the table covers no variables.
    pub fn is_empty(&self) -> (r: bool)
        ensures
            r == (self@.len() == 0),
    {
        self.0.len() == 0
    }

    /// `var`'s pair, or `None` for a variable this table does not cover.
    pub fn get(&self, var: VarId) -> (r: Option<&(ExactWeight, ExactWeight)>)
        ensures
            match r {
                Some(p) => var.number() - 1 < self@.len() && pair_parts(*p) == self@[var.number() - 1],
                None => var.number() - 1 >= self@.len(),
            },
    {
        let i = var.idx();
        if i < self.0.len() {
            Some(&self.0[i])
        } else {
            None
        }
    }

    /// The table as `(w⁻, w⁺)` per variable, in order, for a consumer that
    /// hands a contiguous table to its own arithmetic.
    pub fn as_pairs(&self) -> (r: &[(ExactWeight, ExactWeight)])
        ensures
            r@.map_values(|p: (ExactWeight, ExactWeight)| pair_parts(p)) == self@,
    {
        self.0.as_slice()
    }

    /// Whether every weight of the table describes a rational.
    pub fn is_rational(&self) -> (r: bool)
        ensures
            r == all_rational(self@),
    {
        let mut i: usize = 0;
        while i < self.0.len()
            invariant
                i <= self.0@.len(),
                forall|k: int| 0 <= k < i ==> parts_ok(pair_parts(#[trigger] self.0@[k]).0) && parts_ok(pair_parts(self.0@[k]).1),
            decreases self.0@.len() - i,
        {
            let pair = &self.0[i];
            let a = pair.0.is_rational();
            let b = pair.1.is_rational();
            if !a || !b {
                proof {
                    assert(self@[i as int] == pair_parts(self.0@[i as int]));
                    assert(self@[i as int].0 == parts_of(self.0@[i as int].0));
                    assert(self@[i as int].1 == parts_of(self.0@[i as int].1));
                }
                return false;
            }
            proof {
                assert(parts_ok(pair_parts(self.0@[i as int]).0) && parts_ok(pair_parts(self.0@[i as int]).1));
            }
            i = i + 1;
        }
        proof {
            assert forall|k: int| 0 <= k < self@.len() implies #[trigger] parts_ok(self@[k].0) && parts_ok(self@[k].1) by {
                assert(self@[k] == pair_parts(self.0@[k]));
            }
        }
        true
    }

    /// The table a variable correspondence carries onto its own variables: one
    /// entry per variable in order, `None` for a variable the correspondence
    /// does not name, which weighs 1 on both polarities.
    pub fn from_carried(entries: Vec<Option<(ExactWeight, ExactWeight)>>) -> (r: Self)
        ensures
            r@.len() == entries@.len(),
            forall|i: int| 0 <= i < entries@.len() ==> #[trigger] r@[i] == match entries@[i] {
                Some(p) => pair_parts(p),
                None => (one_parts(), one_parts()),
            },
    {
        let mut v: Vec<(ExactWeight, ExactWeight)> = Vec::new();
        let mut n: usize = 0;
        while n < entries.len()
            invariant
                n <= entries@.len(),
                v@.len() == n,
                forall|i: int| 0 <= i < n ==> #[trigger] pair_parts(v@[i]) == match entries@[i] {
                    Some(p) => pair_parts(p),
                    None => (one_parts(), one_parts()),
                },
            decreases entries@.len() - n,
        {
            let pair = match &entries[n] {
                Some(p) => duplicate_pair(p),
                None => (ExactWeight::one(), ExactWeight::one()),
            };
            v.push(pair);
            n = n + 1;
        }
        let r = Weights(v, PhantomData);
        proof {
            assert forall|i: int| 0 <= i < entries@.len() implies #[trigger] r@[i] == match entries@[i] {
                Some(p) => pair_parts(p),
                None => (one_parts(), one_parts()),
            } by {
                assert(r@[i] == pair_parts(v@[i]));
            }
        }
        r
    }

    /// The table over `num_vars` read one literal at a time, `read` answering
    /// for a signed DIMACS literal. Every variable is asked for both ways,
    /// positive first, and the first literal `read` cannot answer for abandons
    /// the whole table.
    pub fn try_from_dimacs_lits<F: Fn(i32) -> Option<ExactWeight>>(num_vars: u32, read: F) -> (r: Option<Self>)
        requires
            num_vars <= i32::MAX,
            forall|l: i32| call_requires(read, (l,)),
        ensures
            match r {
                Some(w) => w@.len() == num_vars
                    && forall|i: int| 0 <= i < num_vars ==> read_answers(read, i, #[trigger] w@[i]),
                None => exists|i: int| #![trigger dimacs_pos(i)] 0 <= i < num_vars && (
                    call_ensures(read, (dimacs_pos(i),), None::<ExactWeight>)
                    || call_ensures(read, (dimacs_neg(i),), None::<ExactWeight>)),
            },
    {
        let mut v: Vec<(ExactWeight, ExactWeight)> = Vec::new();
        let mut n: u32 = 0;
        while n < num_vars
            invariant
                n <= num_vars,
                num_vars <= i32::MAX,
                forall|l: i32| call_requires(read, (l,)),
                v@.len() == n,
                forall|i: int| 0 <= i < n ==> read_answers(read, i, pair_parts(#[trigger] v@[i])),
            decreases num_vars - n,
        {
            let pos: i32 = (n + 1) as i32;
            let neg: i32 = -pos;
            proof {
                assert(pos == dimacs_pos(n as int) && neg == dimacs_neg(n as int));
            }
            let wp = match read(pos) {
                Some(w) => w,
                None => {
                    return None;
                },
            };
            let wn = match read(neg) {
                Some(w) => w,
                None => {
                    return None;
                },
            };
            proof {
                assert(call_ensures(read, (dimacs_pos(n as int),), Some(wp)));
                assert(call_ensures(read, (dimacs_neg(n as int),), Some(wn)));
                assert(read_answers(read, n as int, pair_parts((wn, wp))));
            }
            v.push((wn, wp));
            proof {
                assert(v@[n as int] == (wn, wp));
            }
            n = n + 1;
        }
        let r = Weights(v, PhantomData);
        proof {
            assert forall|i: int| 0 <= i < num_vars implies read_answers(read, i, #[trigger] r@[i]) by {
                assert(r@[i] == pair_parts(v@[i]));
            }
        }
        Some(r)
    }

    /// The table over `num_vars` from `(signed DIMACS literal, weight)` pairs:
    /// a literal no pair names keeps weight 1, a later pair for a literal wins
    /// over an earlier one, and a pair naming no variable of the table is
    /// dropped.
    pub fn from_dimacs_pairs(pairs: &[(i32, ExactWeight)], num_vars: usize) -> (r: Self)
        ensures
            r@.len() == num_vars,
            forall|i: int| 0 <= i < num_vars ==> #[trigger] r@[i] == (
                listed_negative(rows_view(pairs@), i),
                listed_or_one(rows_view(pairs@), i + 1),
            ),
    {
        let start = Weights::<S>::uniform(num_vars);
        let mut w: Vec<(ExactWeight, ExactWeight)> = start.0;
        proof {
            assert(rows_view(pairs@.take(0)) =~= Seq::<(i32, WeightParts)>::empty());
            assert forall|i: int| 0 <= i < num_vars implies #[trigger] pair_parts(w@[i]) == (
                listed_negative(rows_view(pairs@.take(0)), i),
                listed_or_one(rows_view(pairs@.take(0)), i + 1),
            ) by {
                assert(start@[i] == pair_parts(w@[i]));
            }
        }
        let mut k: usize = 0;
        while k < pairs.len()
            invariant
                k <= pairs@.len(),
                w@.len() == num_vars,
                forall|i: int| 0 <= i < num_vars ==> #[trigger] pair_parts(w@[i]) == (
                    listed_negative(rows_view(pairs@.take(k as int)), i),
                    listed_or_one(rows_view(pairs@.take(k as int)), i + 1),
                ),
            decreases pairs@.len() - k,
        {
            let lit = pairs[k].0;
            let ghost before = w@;
            proof {
                assert(rows_view(pairs@.take(k + 1)).drop_last() =~= rows_view(pairs@.take(k as int)));
                assert(rows_view(pairs@.take(k + 1)).last() == (lit, parts_of(pairs@[k as int].1)));
            }
            match VarId::try_from_dimacs(lit) {
                Some(var) => {
                    let idx = var.idx();
                    if idx < w.len() {
                        let val = pairs[k].1.duplicate();
                        let old_pair = duplicate_pair(&w[idx]);
                        if lit > 0 {
                            w.set(idx, (old_pair.0, val));
                        } else {
                            w.set(idx, (val, old_pair.1));
                        }
                    }
                },
                None => {},
            }
            proof {
                assert forall|i: int| 0 <= i < num_vars implies #[trigger] pair_parts(w@[i]) == (
                    listed_negative(rows_view(pairs@.take(k + 1)), i),
                    listed_or_one(rows_view(pairs@.take(k + 1)), i + 1),
                ) by {
                    let rows1 = rows_view(pairs@.take(k + 1));
                    let rows0 = rows_view(pairs@.take(k as int));
                    assert(pair_parts(before[i]) == (listed_negative(rows0, i), listed_or_one(rows0, i + 1)));
                    if lit != -(i + 1) {
                        assert(last_weight(rows1, -(i + 1)) == last_weight(rows0, -(i + 1)));
                    } else {
                        assert(last_weight(rows1, -(i + 1)) == Some(parts_of(pairs@[k as int].1)));
                    }
                    if lit != i + 1 {
                        assert(last_weight(rows1, i + 1) == last_weight(rows0, i + 1));
                    } else {
                        assert(last_weight(rows1, i + 1) == Some(parts_of(pairs@[k as int].1)));
                    }
                }
            }
            k = k + 1;
        }
        proof {
            assert(pairs@.take(pairs@.len() as int) == pairs@);
        }
        let r = Weights(w, PhantomData);
        proof {
            assert forall|i: int| 0 <= i < num_vars implies #[trigger] r@[i] == (
                listed_negative(rows_view(pairs@), i),
                listed_or_one(rows_view(pairs@), i + 1),
            ) by {
                assert(r@[i] == pair_parts(w@[i]));
            }
        }
        r
    }

    /// The variables carrying a weight of their own — anything but 1 on at
    /// least one polarity — ascending. A variable weighing 1 both ways is
    /// indistinguishable from one no weight line ever mentioned.
    pub fn weighted_vars(&self) -> (r: Vec<VarId>)
        requires
            all_rational(self@),
            self@.len() < u32::MAX,
        ensures
            numbers_of(r@) == picked_upto(self@, self@.len() as int, false),
    {
        self.picked(false)
    }

    /// The numbers of the variables whose two literal weights differ: the
    /// ones whose elimination is no scalar factor, and so the set a caller
    /// freezes out of the stages that eliminate.
    pub fn unequal_vars(&self) -> (r: FxHashSet<u32>)
        requires
            all_rational(self@),
            self@.len() < u32::MAX,
        ensures
            r@ == picked_upto(self@, self@.len() as int, true).to_set(),
    {
        let picked = self.picked(true);
        let mut set = fx_set_new();
        let mut i: usize = 0;
        while i < picked.len()
            invariant
                i <= picked@.len(),
                set@ == numbers_of(picked@.take(i as int)).to_set(),
            decreases picked@.len() - i,
        {
            let ghost before = set@;
            fx_set_insert(&mut set, picked[i].get());
            proof {
                assert(picked@.take(i + 1) == picked@.take(i as int).push(picked@[i as int]));
                assert(numbers_of(picked@.take(i + 1)) =~= numbers_of(picked@.take(i as int)).push(picked@[i as int].number()));
                numbers_of(picked@.take(i as int)).lemma_push_to_set_commute(picked@[i as int].number());
            }
            i = i + 1;
        }
        proof {
            assert(picked@.take(picked@.len() as int) == picked@);
        }
        set
    }

    /// The variables [`Self::unequal_vars`] (`unequal`) or
    /// [`Self::weighted_vars`] (otherwise) picks.
    fn picked(&self, unequal: bool) -> (r: Vec<VarId>)
        requires
            all_rational(self@),
            self@.len() < u32::MAX,
        ensures
            numbers_of(r@) == picked_upto(self@, self@.len() as int, unequal),
    {
        let one = ExactWeight::one();
        proof {
            lemma_one_rational();
        }
        let mut out: Vec<VarId> = Vec::new();
        let mut i: usize = 0;
        while i < self.0.len()
            invariant
                i <= self@.len() < u32::MAX,
                self@.len() == self.0@.len(),
                all_rational(self@),
                parts_of(one) == one_parts(),
                parts_ok(one_parts()),
                numbers_of(out@) == picked_upto(self@, i as int, unequal),
            decreases self@.len() - i,
        {
            proof {
                assert(self@[i as int] == pair_parts(self.0@[i as int]));
                lemma_rational_at(self@, i as int);
            }
            let pair = &self.0[i];
            let keep = if unequal {
                !same_value(&pair.0, &pair.1)
            } else {
                !(same_value(&pair.0, &one) && same_value(&pair.1, &one))
            };
            let ghost before = out@;
            if keep {
                out.push(VarId::from_idx(i));
                proof {
                    assert(numbers_of(out@) =~= numbers_of(before).push((i + 1) as u32));
                }
            }
            i = i + 1;
        }
        out
    }

    /// The table as `(signed DIMACS literal, weight)` pairs, both polarities
    /// of every variable listed, positive first, so nothing depends on the
    /// receiver's own default.
    pub fn to_dimacs_pairs(&self) -> (r: Vec<(i32, ExactWeight)>)
        requires
            self@.len() <= i32::MAX,
        ensures
            rows_view(r@) == dimacs_rows(self@, self@.len() as int),
    {
        let mut out: Vec<(i32, ExactWeight)> = Vec::new();
        let mut i: usize = 0;
        while i < self.0.len()
            invariant
                i <= self@.len() <= i32::MAX,
                self@.len() == self.0@.len(),
                rows_view(out@) == dimacs_rows(self@, i as int),
            decreases self@.len() - i,
        {
            proof {
                assert(self@[i as int] == pair_parts(self.0@[i as int]));
            }
            let var = VarId::from_idx(i);
            let pos = Literal::pos(var).to_dimacs();
            let neg = Literal::neg(var).to_dimacs();
            let ghost before = out@;
            out.push((pos, self.0[i].1.duplicate()));
            out.push((neg, self.0[i].0.duplicate()));
            proof {
                assert(rows_view(out@) =~= rows_view(before) + seq![
                    ((i + 1) as i32, self@[i as int].1),
                    ((-(i + 1)) as i32, self@[i as int].0),
                ]);
            }
            i = i + 1;
        }
        out
    }

    /// The table as the rows a record and a `c p weight` header are written
    /// from: the literals of [`Self::to_dimacs_pairs`] in the same order, the
    /// weights spelt as `numerator/denominator` in lowest terms.
    pub fn to_record_rows(&self) -> (r: Vec<LiteralWeight>)
        requires
            all_rational(self@),
            self@.len() <= i32::MAX,
        ensures
            rows_spelt(r@) == record_rows(self@, self@.len() as int),
    {
        let mut out: Vec<LiteralWeight> = Vec::new();
        let mut i: usize = 0;
        while i < self.0.len()
            invariant
                i <= self@.len() <= i32::MAX,
                self@.len() == self.0@.len(),
                all_rational(self@),
                rows_spelt(out@) == record_rows(self@, i as int),
            decreases self@.len() - i,
        {
            proof {
                assert(self@[i as int] == pair_parts(self.0@[i as int]));
                lemma_rational_at(self@, i as int);
            }
            let var = VarId::from_idx(i);
            let pos = Literal::pos(var).to_dimacs();
            let neg = Literal::neg(var).to_dimacs();
            let ghost before = out@;
            out.push(LiteralWeight { literal: pos, weight: self.0[i].1.spelling() });
            out.push(LiteralWeight { literal: neg, weight: self.0[i].0.spelling() });
            proof {
                assert(rows_spelt(out@) =~= rows_spelt(before) + seq![
                    ((i + 1) as i32, lowest_terms_spelling(self@[i as int].1.0, self@[i as int].1.1, self@[i as int].1.2)),
                    ((-(i + 1)) as i32, lowest_terms_spelling(self@[i as int].0.0, self@[i as int].0.1, self@[i as int].0.2)),
                ]);
            }
            i = i + 1;
        }
        out
    }

    /// Multiply one eliminated variable's weights `pair` — `(w⁻, w⁺)` — into
    /// the survivor that now stands for it: `e ≡ surv` multiplies them straight
    /// through, `e ≡ ¬surv` swaps them first.
    pub fn fold_into(&mut self, pair: (ExactWeight, ExactWeight), surv: Literal)
        requires
            1 <= surv.var.number() <= old(self)@.len(),
            all_rational(old(self)@),
            parts_ok(parts_of(pair.0)),
            parts_ok(parts_of(pair.1)),
        ensures
            final(self)@ == folded(old(self)@, pair_parts(pair), surv),
            all_rational(final(self)@),
    {
        let s = surv.var.idx();
        proof {
            let t = old(self)@;
            assert(0 <= s < t.len());
            lemma_rational_at(t, s as int);
            assert(t[s as int] == pair_parts(old(self).0@[s as int]));
        }
        let cur = duplicate_pair(&self.0[s]);
        let (en, ep) = pair;
        let next = if surv.positive {
            (multiply(&cur.0, &en), multiply(&cur.1, &ep))
        } else {
            (multiply(&cur.0, &ep), multiply(&cur.1, &en))
        };
        let ghost before = self.0@;
        self.0.set(s, next);
        proof {
            assert(self@ =~= folded(old(self)@, (parts_of(en), parts_of(ep)), surv)) by {
                assert forall|k: int| 0 <= k < self@.len() implies self@[k] == folded(old(self)@, (parts_of(en), parts_of(ep)), surv)[k] by {
                    assert(self@[k] == pair_parts(self.0@[k]));
                    assert(old(self)@[k] == pair_parts(before[k]));
                }
            }
            assert forall|k: int| 0 <= k < self@.len() implies #[trigger] parts_ok(self@[k].0) && parts_ok(self@[k].1) by {
                assert(self@[k] == pair_parts(self.0@[k]));
                assert(old(self)@[k] == pair_parts(before[k]));
                if k != s {
                    lemma_rational_at(old(self)@, k);
                }
            }
            assert(all_rational(self@));
        }
    }

    /// Fold each of `folds` in turn, each eliminated variable's current
    /// weights going into its survivor.
    pub fn fold_eliminated(&mut self, folds: &[EquivFold])
        requires
            all_rational(old(self)@),
            forall|k: int| 0 <= k < folds@.len() ==> 1 <= (#[trigger] folds@[k]).eliminated.number() <= old(self)@.len()
                && 1 <= folds@[k].survivor.var.number() <= old(self)@.len(),
        ensures
            final(self)@ == folded_all(old(self)@, folds@),
            all_rational(final(self)@),
    {
        let mut k: usize = 0;
        while k < folds.len()
            invariant
                k <= folds@.len(),
                self@.len() == old(self)@.len(),
                all_rational(self@),
                forall|q: int| 0 <= q < folds@.len() ==> 1 <= (#[trigger] folds@[q]).eliminated.number() <= old(self)@.len()
                    && 1 <= folds@[q].survivor.var.number() <= old(self)@.len(),
                self@ == folded_all(old(self)@, folds@.take(k as int)),
            decreases folds@.len() - k,
        {
            let f = folds[k];
            let e = f.eliminated.idx();
            proof {
                let t = self@;
                assert(0 <= e < t.len());
                lemma_rational_at(t, e as int);
                assert(t[e as int] == pair_parts(self.0@[e as int]));
                assert(folds@.take(k + 1).drop_last() =~= folds@.take(k as int));
                assert(folds@.take(k + 1).last() == f);
            }
            let pair = duplicate_pair(&self.0[e]);
            self.fold_into(pair, f.survivor);
            k = k + 1;
        }
        proof {
            assert(folds@.take(folds@.len() as int) =~= folds@);
        }
    }

    /// Cover exactly `num_vars` variables: drop the tail beyond it, and give
    /// weight 1 to any variable the table never named.
    pub fn resize_neutral(&mut self, num_vars: usize)
        ensures
            final(self)@.len() == num_vars,
            forall|i: int| 0 <= i < num_vars ==> #[trigger] final(self)@[i] == if i < old(self)@.len() {
                old(self)@[i]
            } else {
                (one_parts(), one_parts())
            },
    {
        let ghost before = self@;
        let mut v: Vec<(ExactWeight, ExactWeight)> = Vec::new();
        std::mem::swap(&mut v, &mut self.0);
        proof {
            assert(before == v@.map_values(|p: (ExactWeight, ExactWeight)| pair_parts(p)));
        }
        v.truncate(num_vars);
        proof {
            assert forall|i: int| 0 <= i < v@.len() implies #[trigger] pair_parts(v@[i]) == before[i] by {}
        }
        while v.len() < num_vars
            invariant
                v@.len() <= num_vars,
                v@.len() < num_vars ==> v@.len() >= before.len(),
                forall|i: int| 0 <= i < v@.len() ==> #[trigger] pair_parts(v@[i]) == if i < before.len() {
                    before[i]
                } else {
                    (one_parts(), one_parts())
                },
            decreases num_vars - v@.len(),
        {
            v.push((ExactWeight::one(), ExactWeight::one()));
        }
        self.0 = v;
        proof {
            assert forall|i: int| 0 <= i < num_vars implies #[trigger] self@[i] == if i < before.len() {
                before[i]
            } else {
                (one_parts(), one_parts())
            } by {
                assert(self@[i] == pair_parts(self.0@[i]));
            }
        }
    }
}

impl Weights<Original> {
    /// Read this table as one over the reduced space, for the paths where the
    /// two spaces coincide because nothing was renumbered.
    pub fn assume_reduced_identity(self) -> (r: Weights<Reduced>)
        ensures
            r@ == self@,
    {
        Weights(self.0, PhantomData)
    }
}

impl WeightTable {
    /// The table this file declares, read over its own `num_vars` variables,
    /// each unspecified literal defaulted to weight 1.
    pub fn resolve<S: Space>(&self, num_vars: usize) -> (r: Weights<S>)
        ensures
            r@.len() == num_vars,
            forall|i: int| 0 <= i < num_vars ==> #[trigger] r@[i] == (
                declared_or_one(*self, -(i + 1)),
                declared_or_one(*self, i + 1),
            ),
    {
        let mut v: Vec<(ExactWeight, ExactWeight)> = Vec::new();
        let mut n: usize = 0;
        while n < num_vars
            invariant
                n <= num_vars,
                v@.len() == n,
                forall|i: int| 0 <= i < n ==> #[trigger] pair_parts(v@[i]) == (
                    declared_or_one(*self, -(i + 1)),
                    declared_or_one(*self, i + 1),
                ),
            decreases num_vars - n,
        {
            let (wn, wp) = self.weights_of(n);
            v.push((wn, wp));
            n = n + 1;
        }
        let r = Weights(v, PhantomData);
        proof {
            assert forall|i: int| 0 <= i < num_vars implies #[trigger] r@[i] == (
                declared_or_one(*self, -(i + 1)),
                declared_or_one(*self, i + 1),
            ) by {
                assert(r@[i] == pair_parts(v@[i]));
            }
        }
        r
    }
}

} // verus!
