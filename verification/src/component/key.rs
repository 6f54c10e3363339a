//! The key a component's vtree is cached under: its variable count, its
//! clauses in a normal form, and the show mask construction would see. The
//! normal form sorts each clause's `(variable, polarity)` pairs, then the
//! clause list, so the key does not depend on the order in which the source
//! wrote either.

use vstd::prelude::*;
use vstd::multiset::Multiset;
use vstd::relations::{sorted_by, total_ordering};
use vstd::seq_lib::lemma_sorted_unique;

use crate::cnf::{Clause, CnfFormula, ShowMask};

verus! {

/// A literal as the key reads it: its variable's number and its polarity.
pub type LitKey = (u32, bool);

/// The order on literal keys: by variable, then negative before positive.
pub open spec fn lit_leq(a: LitKey, b: LitKey) -> bool {
    a.0 < b.0 || (a.0 == b.0 && (!a.1 || b.1))
}

/// The lexicographic order on clauses of literal keys, a proper prefix first.
pub open spec fn clause_leq(a: Seq<LitKey>, b: Seq<LitKey>) -> bool
    decreases a.len(),
{
    if a.len() == 0 {
        true
    } else if b.len() == 0 {
        false
    } else if a[0] == b[0] {
        clause_leq(a.drop_first(), b.drop_first())
    } else {
        lit_leq(a[0], b[0])
    }
}

/// The literal keys of `c`, in its own order.
pub open spec fn clause_pairs(c: Clause) -> Seq<LitKey> {
    c.literals@.map_values(|l: crate::cnf::Literal| (l.var.number(), l.positive))
}

/// `c` in normal form: its literal keys, sorted.
pub open spec fn normal_clause(c: Clause) -> Seq<LitKey> {
    clause_pairs(c).sort_by(|a: LitKey, b: LitKey| lit_leq(a, b))
}

/// The clauses of `f` in normal form: each clause normalized, then the list
/// sorted.
pub open spec fn key_clauses(f: CnfFormula) -> Seq<Seq<LitKey>> {
    f.clauses@.map_values(|c: Clause| normal_clause(c)).sort_by(|a: Seq<LitKey>, b: Seq<LitKey>| clause_leq(a, b))
}

proof fn lemma_lit_order()
    ensures
        total_ordering(|a: LitKey, b: LitKey| lit_leq(a, b)),
{
}

proof fn lemma_clause_leq_reflexive(a: Seq<LitKey>)
    ensures
        clause_leq(a, a),
    decreases a.len(),
{
    if a.len() > 0 {
        lemma_clause_leq_reflexive(a.drop_first());
    }
}

proof fn lemma_clause_leq_antisymmetric(a: Seq<LitKey>, b: Seq<LitKey>)
    requires
        clause_leq(a, b),
        clause_leq(b, a),
    ensures
        a == b,
    decreases a.len(),
{
    if a.len() > 0 && b.len() > 0 {
        if a[0] == b[0] {
            lemma_clause_leq_antisymmetric(a.drop_first(), b.drop_first());
            assert(a =~= seq![a[0]] + a.drop_first());
            assert(b =~= seq![b[0]] + b.drop_first());
        }
    }
}

proof fn lemma_clause_leq_transitive(a: Seq<LitKey>, b: Seq<LitKey>, c: Seq<LitKey>)
    requires
        clause_leq(a, b),
        clause_leq(b, c),
    ensures
        clause_leq(a, c),
    decreases a.len(),
{
    if a.len() > 0 && b.len() > 0 && c.len() > 0 {
        if a[0] == b[0] && b[0] == c[0] {
            lemma_clause_leq_transitive(a.drop_first(), b.drop_first(), c.drop_first());
        }
    }
}

proof fn lemma_clause_leq_total(a: Seq<LitKey>, b: Seq<LitKey>)
    ensures
        clause_leq(a, b) || clause_leq(b, a),
    decreases a.len(),
{
    if a.len() > 0 && b.len() > 0 && a[0] == b[0] {
        lemma_clause_leq_total(a.drop_first(), b.drop_first());
    }
}

proof fn lemma_clause_order()
    ensures
        total_ordering(|a: Seq<LitKey>, b: Seq<LitKey>| clause_leq(a, b)),
{
    let leq = |a: Seq<LitKey>, b: Seq<LitKey>| clause_leq(a, b);
    assert forall|a: Seq<LitKey>| #[trigger] leq(a, a) by {
        lemma_clause_leq_reflexive(a);
    }
    assert forall|a: Seq<LitKey>, b: Seq<LitKey>| #[trigger] leq(a, b) && #[trigger] leq(b, a) implies a == b by {
        lemma_clause_leq_antisymmetric(a, b);
    }
    assert forall|a: Seq<LitKey>, b: Seq<LitKey>, c: Seq<LitKey>| #[trigger] leq(a, b) && #[trigger] leq(b, c) implies leq(a, c) by {
        lemma_clause_leq_transitive(a, b, c);
    }
    assert forall|a: Seq<LitKey>, b: Seq<LitKey>| #[trigger] leq(a, b) || #[trigger] leq(b, a) by {
        lemma_clause_leq_total(a, b);
    }
}

/// A clause's normal form is the one sorted arrangement of its literal keys.
proof fn lemma_normal_clause_is(c: Clause, s: Seq<LitKey>)
    requires
        sorted_by(s, |a: LitKey, b: LitKey| lit_leq(a, b)),
        s.to_multiset() == clause_pairs(c).to_multiset(),
    ensures
        normal_clause(c) == s,
{
    let leq = |a: LitKey, b: LitKey| lit_leq(a, b);
    lemma_lit_order();
    clause_pairs(c).lemma_sort_by_ensures(leq);
    lemma_sorted_unique(normal_clause(c), s, leq);
}

/// The sorted arrangement of the literal keys `m`.
pub open spec fn sorted_of(m: Multiset<LitKey>) -> Seq<LitKey> {
    choose|s: Seq<LitKey>| sorted_by(s, |a: LitKey, b: LitKey| lit_leq(a, b)) && s.to_multiset() == m
}

/// A clause's normal form depends on its literal keys as a multiset alone.
proof fn lemma_normal_clause_of_multiset(c: Clause)
    ensures
        normal_clause(c) == sorted_of(clause_pairs(c).to_multiset()),
{
    let leq = |a: LitKey, b: LitKey| lit_leq(a, b);
    lemma_lit_order();
    clause_pairs(c).lemma_sort_by_ensures(leq);
    let s = sorted_of(clause_pairs(c).to_multiset());
    assert(sorted_by(s, leq) && s.to_multiset() == clause_pairs(c).to_multiset());
    lemma_normal_clause_is(c, s);
}

/// Mapping two sequences with the same elements gives two with the same
/// elements.
proof fn lemma_map_keeps_multiset<A, B>(s1: Seq<A>, s2: Seq<A>, h: spec_fn(A) -> B)
    requires
        s1.to_multiset() == s2.to_multiset(),
    ensures
        s1.map_values(h).to_multiset() == s2.map_values(h).to_multiset(),
    decreases s1.len(),
{
    broadcast use vstd::seq_lib::group_to_multiset_ensures;

    if s1.len() == 0 {
        vstd::seq_lib::to_multiset_len(s1);
        vstd::seq_lib::to_multiset_len(s2);
        assert(s2.len() == 0);
        assert(s1.map_values(h) =~= s2.map_values(h));
    } else {
        let x = s1.last();
        let r1 = s1.drop_last();
        assert(s1 =~= r1.push(x));
        vstd::seq_lib::to_multiset_contains(s1, x);
        assert(s1.contains(x)) by {
            assert(s1[s1.len() - 1] == x);
        }
        vstd::seq_lib::to_multiset_contains(s2, x);
        assert(s2.contains(x));
        let j = choose|j: int| 0 <= j < s2.len() && s2[j] == x;
        let r2 = s2.remove(j);
        assert(r1.to_multiset() =~= r2.to_multiset());
        lemma_map_keeps_multiset(r1, r2, h);
        assert(s1.map_values(h) =~= r1.map_values(h).push(h(x)));
        assert(s2.map_values(h) =~= r2.map_values(h).insert(j, h(x)));
    }
}

/// A component's key does not depend on the order in which its formula lists
/// its clauses, nor on the order in which a clause lists its literals: two
/// formulas whose clauses are the same multisets of literals, each the same
/// number of times, have the same normalized clauses.
pub proof fn lemma_key_ignores_order(f1: CnfFormula, f2: CnfFormula)
    requires
        f1.clauses@.map_values(|c: Clause| clause_pairs(c).to_multiset()).to_multiset()
            == f2.clauses@.map_values(|c: Clause| clause_pairs(c).to_multiset()).to_multiset(),
    ensures
        key_clauses(f1) == key_clauses(f2),
{
    let lm = |c: Clause| clause_pairs(c).to_multiset();
    let nc = |c: Clause| normal_clause(c);
    let t1 = f1.clauses@.map_values(lm);
    let t2 = f2.clauses@.map_values(lm);
    lemma_map_keeps_multiset(t1, t2, |m: Multiset<LitKey>| sorted_of(m));
    let n1 = f1.clauses@.map_values(nc);
    let n2 = f2.clauses@.map_values(nc);
    assert forall|i: int| 0 <= i < n1.len() implies #[trigger] n1[i] == t1.map_values(|m: Multiset<LitKey>| sorted_of(m))[i] by {
        lemma_normal_clause_of_multiset(f1.clauses@[i]);
    }
    assert forall|i: int| 0 <= i < n2.len() implies #[trigger] n2[i] == t2.map_values(|m: Multiset<LitKey>| sorted_of(m))[i] by {
        lemma_normal_clause_of_multiset(f2.clauses@[i]);
    }
    assert(n1 =~= t1.map_values(|m: Multiset<LitKey>| sorted_of(m)));
    assert(n2 =~= t2.map_values(|m: Multiset<LitKey>| sorted_of(m)));
    let cleq = |a: Seq<LitKey>, b: Seq<LitKey>| clause_leq(a, b);
    lemma_clause_order();
    n1.lemma_sort_by_ensures(cleq);
    n2.lemma_sort_by_ensures(cleq);
    lemma_sorted_unique(key_clauses(f1), key_clauses(f2), cleq);
}

/// Whether `a` sorts no later than `b`.
fn lit_le(a: LitKey, b: LitKey) -> (r: bool)
    ensures
        r == lit_leq(a, b),
{
    a.0 < b.0 || (a.0 == b.0 && (!a.1 || b.1))
}

/// Whether clause `a` sorts no later than clause `b`.
fn clause_le(a: &Vec<LitKey>, b: &Vec<LitKey>) -> (r: bool)
    ensures
        r == clause_leq(a@, b@),
{
    let mut i: usize = 0;
    proof {
        assert(a@.skip(0) =~= a@);
        assert(b@.skip(0) =~= b@);
    }
    while i < a.len() && i < b.len()
        invariant_except_break
            clause_leq(a@.skip(i as int), b@.skip(i as int)) == clause_leq(a@, b@),
        invariant
            i <= a@.len(),
            i <= b@.len(),
            clause_leq(a@.skip(i as int), b@.skip(i as int)) == clause_leq(a@, b@),
        ensures
            i < a@.len() && i < b@.len() ==> a@[i as int] != b@[i as int],
            clause_leq(a@.skip(i as int), b@.skip(i as int)) == clause_leq(a@, b@),
        decreases a@.len() - i,
    {
        let (av, ap) = a[i];
        let (bv, bp) = b[i];
        if av != bv || ap != bp {
            break;
        }
        proof {
            let sa = a@.skip(i as int);
            let sb = b@.skip(i as int);
            assert(sa.drop_first() =~= a@.skip(i + 1));
            assert(sb.drop_first() =~= b@.skip(i + 1));
        }
        i = i + 1;
    }
    if i == a.len() {
        true
    } else if i == b.len() {
        false
    } else {
        lit_le(a[i], b[i])
    }
}

/// The literal keys of `c`, sorted.
fn normalize_clause(c: &Clause) -> (r: Vec<LitKey>)
    ensures
        r@ == normal_clause(*c),
{
    let leq = Ghost(|a: LitKey, b: LitKey| lit_leq(a, b));
    let lits = &c.literals;
    let mut out: Vec<LitKey> = Vec::new();
    let mut i: usize = 0;
    proof {
        lemma_lit_order();
        assert(out@ =~= clause_pairs(*c).take(0));
    }
    while i < lits.len()
        invariant
            i <= lits@.len(),
            *lits == c.literals,
            leq@ == (|a: LitKey, b: LitKey| lit_leq(a, b)),
            total_ordering(leq@),
            sorted_by(out@, leq@),
            out@.to_multiset() == clause_pairs(*c).take(i as int).to_multiset(),
        decreases lits@.len() - i,
    {
        let x: LitKey = (lits[i].var.get(), lits[i].positive);
        let mut p: usize = 0;
        while p < out.len() && lit_le(out[p], x)
            invariant
                p <= out@.len(),
                forall|k: int| 0 <= k < p ==> lit_leq(#[trigger] out@[k], x),
            decreases out@.len() - p,
        {
            p = p + 1;
        }
        let ghost before = out@;
        out.insert(p, x);
        proof {
            assert(out@ == before.insert(p as int, x));
            assert(sorted_by(out@, leq@)) by {
                assert forall|j: int, k: int| 0 <= j < k < out@.len() implies #[trigger] leq@(out@[j], out@[k]) by {
                    if k < p {
                        assert(leq@(before[j], before[k]));
                    } else if k == p {
                        assert(lit_leq(before[j], x));
                    } else if j == p {
                        assert(!lit_leq(before[p as int], x));
                        assert(lit_leq(x, before[p as int]));
                        if k - 1 > p {
                            assert(leq@(before[p as int], before[k - 1]));
                        }
                    } else if j < p {
                        assert(leq@(before[j], before[k - 1]));
                    } else {
                        assert(leq@(before[j - 1], before[k - 1]));
                    }
                }
            }
            vstd::seq_lib::to_multiset_insert(before, p as int, x);
            let pairs = clause_pairs(*c);
            assert(pairs.take(i + 1) =~= pairs.take(i as int).push(x));
            vstd::seq_lib::to_multiset_build(pairs.take(i as int), x);
        }
        i = i + 1;
    }
    proof {
        assert(clause_pairs(*c).take(lits@.len() as int) =~= clause_pairs(*c));
        lemma_normal_clause_is(*c, out@);
    }
    out
}

/// The cache key of a component: its variable count, its clauses in normal
/// form, and the local show mask construction would see.
pub struct ComponentKey {
    /// The component's variable count.
    pub num_vars: u32,
    /// Each clause's literal keys sorted, then the clause list sorted.
    pub clauses: Vec<Vec<LitKey>>,
    /// The local show mask, or `None` where construction ignores one.
    pub show: Option<ShowMask>,
}

impl ComponentKey {
    /// The key of `sub` under `show`: deterministic, and blind to the order
    /// of clauses and of literals within a clause.
    pub fn new(sub: &CnfFormula, show: Option<ShowMask>) -> (r: Self)
        ensures
            r.num_vars == sub.num_vars,
            r.clauses@.map_values(|c: Vec<LitKey>| c@) == key_clauses(*sub),
            r.show == show,
    {
        let cleq = Ghost(|a: Seq<LitKey>, b: Seq<LitKey>| clause_leq(a, b));
        let ghost normals = sub.clauses@.map_values(|c: Clause| normal_clause(c));
        let mut out: Vec<Vec<LitKey>> = Vec::new();
        let mut i: usize = 0;
        proof {
            lemma_clause_order();
            assert(out@.map_values(|c: Vec<LitKey>| c@) =~= normals.take(0));
        }
        while i < sub.clauses.len()
            invariant
                i <= sub.clauses@.len(),
                normals == sub.clauses@.map_values(|c: Clause| normal_clause(c)),
                cleq@ == (|a: Seq<LitKey>, b: Seq<LitKey>| clause_leq(a, b)),
                total_ordering(cleq@),
                sorted_by(out@.map_values(|c: Vec<LitKey>| c@), cleq@),
                out@.map_values(|c: Vec<LitKey>| c@).to_multiset() == normals.take(i as int).to_multiset(),
            decreases sub.clauses@.len() - i,
        {
            let x = normalize_clause(&sub.clauses[i]);
            let ghost xv = x@;
            let ghost before = out@.map_values(|c: Vec<LitKey>| c@);
            let mut p: usize = 0;
            while p < out.len() && clause_le(&out[p], &x)
                invariant
                    p <= out@.len(),
                    before == out@.map_values(|c: Vec<LitKey>| c@),
                    xv == x@,
                    forall|k: int| 0 <= k < p ==> clause_leq(#[trigger] before[k], xv),
                decreases out@.len() - p,
            {
                proof {
                    assert(before[p as int] == out@[p as int]@);
                }
                p = p + 1;
            }
            out.insert(p, x);
            proof {
                let now = out@.map_values(|c: Vec<LitKey>| c@);
                assert(now =~= before.insert(p as int, xv));
                assert(sorted_by(now, cleq@)) by {
                    assert forall|j: int, k: int| 0 <= j < k < now.len() implies #[trigger] cleq@(now[j], now[k]) by {
                        if k < p {
                            assert(cleq@(before[j], before[k]));
                        } else if k == p {
                            assert(clause_leq(before[j], xv));
                        } else if j == p {
                            assert(!clause_leq(before[p as int], xv));
                            lemma_clause_leq_total(before[p as int], xv);
                            if k - 1 > p {
                                assert(cleq@(before[p as int], before[k - 1]));
                                lemma_clause_leq_transitive(xv, before[p as int], before[k - 1]);
                            }
                        } else if j < p {
                            assert(cleq@(before[j], before[k - 1]));
                        } else {
                            assert(cleq@(before[j - 1], before[k - 1]));
                        }
                    }
                }
                vstd::seq_lib::to_multiset_insert(before, p as int, xv);
                assert(normals.take(i + 1) =~= normals.take(i as int).push(xv));
                vstd::seq_lib::to_multiset_build(normals.take(i as int), xv);
            }
            i = i + 1;
        }
        proof {
            let leq = |a: Seq<LitKey>, b: Seq<LitKey>| clause_leq(a, b);
            assert(normals.take(sub.clauses@.len() as int) =~= normals);
            normals.lemma_sort_by_ensures(leq);
            lemma_sorted_unique(out@.map_values(|c: Vec<LitKey>| c@), key_clauses(*sub), leq);
        }
        ComponentKey { num_vars: sub.num_vars, clauses: out, show }
    }
}

} // verus!
