//! The derived per-variable views of a clause set, built in one place:
//! [`appearance_mask`] (does a variable occur), [`frequency`] /
//! [`literal_frequency`] (how often), [`occurrence_lists`] (in which
//! clauses).
//!
//! Every builder here skips a literal whose variable lies beyond the table it
//! fills instead of indexing past its end — relevant only on a malformed
//! formula, where a stray literal is dropped.

use super::{Clause, Literal};
use vstd::prelude::*;

verus! {

/// How many literals of `lits` are over the variable at table position `k`
/// (both polarities when `pol` is `None`, one when it names it).
pub open spec fn lit_count(lits: Seq<Literal>, k: int, pol: Option<bool>) -> nat
    decreases lits.len(),
{
    if lits.len() == 0 {
        0
    } else {
        let l = lits.last();
        let hit = l.var.number() - 1 == k && match pol {
            Some(p) => l.positive == p,
            None => true,
        };
        lit_count(lits.drop_last(), k, pol) + if hit { 1nat } else { 0nat }
    }
}

/// How many literals of `clauses` are over the variable at position `k`, of
/// polarity `pol` where it names one.
pub open spec fn occurrences(clauses: Seq<Clause>, k: int, pol: Option<bool>) -> nat
    decreases clauses.len(),
{
    if clauses.len() == 0 {
        0
    } else {
        occurrences(clauses.drop_last(), k, pol) + lit_count(clauses.last().literals@, k, pol)
    }
}

/// The clause indices a variable's literals of one polarity occur in, in
/// clause order, an index once per such literal.
pub open spec fn occurrence_list(clauses: Seq<Clause>, k: int, positive: bool) -> Seq<usize>
    decreases clauses.len(),
{
    if clauses.len() == 0 {
        Seq::empty()
    } else {
        occurrence_list(clauses.drop_last(), k, positive) + Seq::new(
            lit_count(clauses.last().literals@, k, Some(positive)),
            |_i: int| (clauses.len() - 1) as usize,
        )
    }
}

/// The position of a literal in a per-literal table: `2v` for `v`, `2v + 1`
/// for `¬v`.
pub fn literal_index(var: usize, positive: bool) -> (r: usize)
    requires
        var * 2 + 1 <= usize::MAX,
    ensures
        r == var * 2 + if positive { 0int } else { 1int },
{
    var * 2 + if positive { 0 } else { 1 }
}

/// `mask[v]` is true when the variable at position `v` occurs in some clause.
/// Length `num_vars`.
pub fn appearance_mask(clauses: &[Clause], num_vars: usize) -> (r: Vec<bool>)
    ensures
        r@.len() == num_vars,
        forall|k: int| 0 <= k < num_vars ==> #[trigger] r@[k] == (occurrences(clauses@, k, None) > 0),
{
    let mut mask: Vec<bool> = Vec::new();
    let mut n: usize = 0;
    while n < num_vars
        invariant
            n <= num_vars,
            mask@.len() == n,
            forall|k: int| 0 <= k < n ==> !#[trigger] mask@[k],
        decreases num_vars - n,
    {
        mask.push(false);
        n = n + 1;
    }
    let mut i: usize = 0;
    while i < clauses.len()
        invariant
            i <= clauses@.len(),
            mask@.len() == num_vars,
            forall|k: int| 0 <= k < num_vars ==> #[trigger] mask@[k] == (occurrences(clauses@.take(i as int), k, None) > 0),
        decreases clauses@.len() - i,
    {
        let lits = &clauses[i].literals;
        let ghost before = mask@;
        let mut j: usize = 0;
        while j < lits.len()
            invariant
                i < clauses@.len(),
                *lits == clauses@[i as int].literals,
                j <= lits@.len(),
                mask@.len() == num_vars,
                forall|k: int| 0 <= k < num_vars ==> #[trigger] mask@[k] == (before[k] || lit_count(lits@.take(j as int), k, None) > 0),
            decreases lits@.len() - j,
        {
            let v = lits[j].var.idx();
            if v < mask.len() {
                mask.set(v, true);
            }
            proof {
                assert(lits@.take(j + 1).drop_last() == lits@.take(j as int));
                assert(lits@.take(j + 1).last() == lits@[j as int]);
            }
            j = j + 1;
        }
        proof {
            assert(lits@.take(lits@.len() as int) == lits@);
            assert(clauses@.take(i + 1).drop_last() == clauses@.take(i as int));
            assert(clauses@.take(i + 1).last() == clauses@[i as int]);
        }
        i = i + 1;
    }
    proof {
        assert(clauses@.take(clauses@.len() as int) == clauses@);
    }
    mask
}

/// A prefix of a literal list counts no more than the list.
proof fn lemma_lit_prefix(lits: Seq<Literal>, j: int, k: int, pol: Option<bool>)
    requires
        0 <= j <= lits.len(),
    ensures
        lit_count(lits.take(j), k, pol) <= lit_count(lits, k, pol),
    decreases lits.len() - j,
{
    if j < lits.len() {
        lemma_lit_prefix(lits, j + 1, k, pol);
        assert(lits.take(j + 1).drop_last() == lits.take(j));
        assert(lit_count(lits.take(j), k, pol) <= lit_count(lits.take(j + 1), k, pol));
    } else {
        assert(lits.take(j) == lits);
    }
}

/// A prefix of the clauses, with the literals of the next one, counts no more
/// than all of them.
proof fn lemma_occ_prefix(cs: Seq<Clause>, i: int, k: int, pol: Option<bool>)
    requires
        0 <= i < cs.len(),
    ensures
        occurrences(cs.take(i), k, pol) + lit_count(cs[i].literals@, k, pol) <= occurrences(cs, k, pol),
    decreases cs.len(),
{
    assert(cs.take(i + 1).drop_last() == cs.take(i));
    assert(cs.take(i + 1).last() == cs[i]);
    if i + 1 < cs.len() {
        let front = cs.drop_last();
        lemma_occ_prefix(front, i, k, pol);
        assert(front.take(i) == cs.take(i));
        assert(front[i] == cs[i]);
    } else {
        assert(cs.take(i + 1) == cs);
    }
}

/// `freq[v]` is how many literals of the variable at position `v` occur across
/// `clauses`, both polarities together. Length `num_vars`.
pub fn frequency(clauses: &[Clause], num_vars: usize) -> (r: Vec<u32>)
    requires
        forall|k: int| 0 <= k < num_vars ==> occurrences(clauses@, k, None) <= u32::MAX,
    ensures
        r@.len() == num_vars,
        forall|k: int| 0 <= k < num_vars ==> #[trigger] r@[k] == occurrences(clauses@, k, None),
{
    let mut freq: Vec<u32> = Vec::new();
    let mut n: usize = 0;
    while n < num_vars
        invariant
            n <= num_vars,
            freq@.len() == n,
            forall|k: int| 0 <= k < n ==> #[trigger] freq@[k] == 0,
        decreases num_vars - n,
    {
        freq.push(0);
        n = n + 1;
    }
    let mut i: usize = 0;
    while i < clauses.len()
        invariant
            i <= clauses@.len(),
            freq@.len() == num_vars,
            forall|k: int| 0 <= k < num_vars ==> occurrences(clauses@, k, None) <= u32::MAX,
            forall|k: int| 0 <= k < num_vars ==> #[trigger] freq@[k] == occurrences(clauses@.take(i as int), k, None),
        decreases clauses@.len() - i,
    {
        let lits = &clauses[i].literals;
        let ghost before = freq@;
        let mut j: usize = 0;
        while j < lits.len()
            invariant
                i < clauses@.len(),
                *lits == clauses@[i as int].literals,
                j <= lits@.len(),
                freq@.len() == num_vars,
                forall|k: int| 0 <= k < num_vars ==> occurrences(clauses@, k, None) <= u32::MAX,
                forall|k: int| 0 <= k < num_vars ==> before[k] == occurrences(clauses@.take(i as int), k, None),
                forall|k: int| 0 <= k < num_vars ==> #[trigger] freq@[k] == before[k] + lit_count(lits@.take(j as int), k, None),
            decreases lits@.len() - j,
        {
            let v = lits[j].var.idx();
            proof {
                assert(lits@.take(j + 1).drop_last() == lits@.take(j as int));
                assert(lits@.take(j + 1).last() == lits@[j as int]);
            }
            if v < freq.len() {
                proof {
                    lemma_lit_prefix(lits@, j + 1, v as int, None);
                    lemma_occ_prefix(clauses@, i as int, v as int, None);
                }
                let c = freq[v];
                freq.set(v, c + 1);
            }
            j = j + 1;
        }
        proof {
            assert(lits@.take(lits@.len() as int) == lits@);
            assert(clauses@.take(i + 1).drop_last() == clauses@.take(i as int));
            assert(clauses@.take(i + 1).last() == clauses@[i as int]);
        }
        i = i + 1;
    }
    proof {
        assert(clauses@.take(clauses@.len() as int) == clauses@);
    }
    freq
}

/// Per-literal occurrence counts, at [`literal_index`]: `freq[2v]` counts the
/// positive literals of the variable at position `v`, `freq[2v + 1]` the
/// negative ones. Length `2 * num_vars`.
pub fn literal_frequency(clauses: &[Clause], num_vars: usize) -> (r: Vec<u32>)
    requires
        num_vars * 2 <= usize::MAX,
        forall|k: int, p: bool| 0 <= k < num_vars ==> occurrences(clauses@, k, Some(p)) <= u32::MAX,
    ensures
        r@.len() == num_vars * 2,
        forall|k: int| 0 <= k < num_vars ==> #[trigger] r@[2 * k] == occurrences(clauses@, k, Some(true)) && r@[2
            * k + 1] == occurrences(clauses@, k, Some(false)),
{
    let mut freq: Vec<u32> = Vec::new();
    let mut n: usize = 0;
    while n < num_vars * 2
        invariant
            n <= num_vars * 2,
            num_vars * 2 <= usize::MAX,
            freq@.len() == n,
            forall|k: int| 0 <= k < n ==> #[trigger] freq@[k] == 0,
        decreases num_vars * 2 - n,
    {
        freq.push(0);
        n = n + 1;
    }
    let mut i: usize = 0;
    while i < clauses.len()
        invariant
            i <= clauses@.len(),
            num_vars * 2 <= usize::MAX,
            freq@.len() == num_vars * 2,
            forall|k: int, p: bool| 0 <= k < num_vars ==> occurrences(clauses@, k, Some(p)) <= u32::MAX,
            forall|k: int| 0 <= k < num_vars ==> #[trigger] freq@[2 * k] == occurrences(clauses@.take(i as int), k, Some(true))
                && freq@[2 * k + 1] == occurrences(clauses@.take(i as int), k, Some(false)),
        decreases clauses@.len() - i,
    {
        let lits = &clauses[i].literals;
        let ghost before = freq@;
        let mut j: usize = 0;
        while j < lits.len()
            invariant
                i < clauses@.len(),
                *lits == clauses@[i as int].literals,
                j <= lits@.len(),
                num_vars * 2 <= usize::MAX,
                freq@.len() == num_vars * 2,
                forall|k: int, p: bool| 0 <= k < num_vars ==> occurrences(clauses@, k, Some(p)) <= u32::MAX,
                forall|k: int| 0 <= k < num_vars ==> #[trigger] before[2 * k] == occurrences(clauses@.take(i as int), k, Some(true))
                    && before[2 * k + 1] == occurrences(clauses@.take(i as int), k, Some(false)),
                forall|k: int| 0 <= k < num_vars ==> #[trigger] freq@[2 * k] == before[2 * k] + lit_count(lits@.take(j as int), k, Some(true))
                    && freq@[2 * k + 1] == before[2 * k + 1] + lit_count(lits@.take(j as int), k, Some(false)),
            decreases lits@.len() - j,
        {
            let lit = lits[j];
            let v = lit.var.idx();
            proof {
                assert(lits@.take(j + 1).drop_last() == lits@.take(j as int));
                assert(lits@.take(j + 1).last() == lits@[j as int]);
            }
            if v < num_vars {
                let at = literal_index(v, lit.positive);
                proof {
                    lemma_lit_prefix(lits@, j + 1, v as int, Some(lit.positive));
                    lemma_occ_prefix(clauses@, i as int, v as int, Some(lit.positive));
                }
                proof {
                    let vi = v as int;
                    assert(freq@[2 * vi] == before[2 * vi] + lit_count(lits@.take(j as int), vi, Some(true)));
                    assert(freq@[2 * vi + 1] == before[2 * vi + 1] + lit_count(lits@.take(j as int), vi, Some(false)));
                    assert(lit_count(lits@.take(j + 1), vi, Some(lit.positive)) == lit_count(lits@.take(j as int), vi, Some(lit.positive)) + 1);
                }
                let c = freq[at];
                let ghost old_freq = freq@;
                freq.set(at, c + 1);
                proof {
                    assert forall|k: int| 0 <= k < num_vars implies #[trigger] freq@[2 * k] == before[2 * k] + lit_count(lits@.take(j + 1), k, Some(true))
                        && freq@[2 * k + 1] == before[2 * k + 1] + lit_count(lits@.take(j + 1), k, Some(false)) by {
                        assert(before[2 * k] == occurrences(clauses@.take(i as int), k, Some(true)));
                        if k != v {
                            assert(2 * k != at && 2 * k + 1 != at);
                            assert(old_freq[2 * k] == before[2 * k] + lit_count(lits@.take(j as int), k, Some(true)));
                            assert(old_freq[2 * k + 1] == before[2 * k + 1] + lit_count(lits@.take(j as int), k, Some(false)));
                        } else {
                            assert(old_freq[2 * k] == before[2 * k] + lit_count(lits@.take(j as int), k, Some(true)));
                            assert(old_freq[2 * k + 1] == before[2 * k + 1] + lit_count(lits@.take(j as int), k, Some(false)));
                        }
                    }
                }
            } else {
                proof {
                    assert forall|k: int| 0 <= k < num_vars implies #[trigger] freq@[2 * k] == before[2 * k] + lit_count(lits@.take(j + 1), k, Some(true))
                        && freq@[2 * k + 1] == before[2 * k + 1] + lit_count(lits@.take(j + 1), k, Some(false)) by {
                        assert(freq@[2 * k] == before[2 * k] + lit_count(lits@.take(j as int), k, Some(true)));
                        assert(freq@[2 * k + 1] == before[2 * k + 1] + lit_count(lits@.take(j as int), k, Some(false)));
                    }
                }
            }
            // Both branches leave every slot one literal further on.
            assert(forall|k: int| 0 <= k < num_vars ==> #[trigger] freq@[2 * k] == before[2 * k] + lit_count(lits@.take(j + 1), k, Some(true))
                    && freq@[2 * k + 1] == before[2 * k + 1] + lit_count(lits@.take(j + 1), k, Some(false)));
            j = j + 1;
        }
        proof {
            assert(lits@.take(lits@.len() as int) == lits@);
            assert(clauses@.take(i + 1).drop_last() == clauses@.take(i as int));
            assert(clauses@.take(i + 1).last() == clauses@[i as int]);
            assert forall|k: int| 0 <= k < num_vars implies #[trigger] freq@[2 * k] == occurrences(clauses@.take(i + 1), k, Some(true))
                && freq@[2 * k + 1] == occurrences(clauses@.take(i + 1), k, Some(false)) by {
                assert(freq@[2 * k] == before[2 * k] + lit_count(lits@.take(lits@.len() as int), k, Some(true)));
                assert(freq@[2 * k + 1] == before[2 * k + 1] + lit_count(lits@.take(lits@.len() as int), k, Some(false)));
            }
        }
        i = i + 1;
    }
    proof {
        assert(clauses@.take(clauses@.len() as int) == clauses@);
    }
    freq
}

/// Appends `x` to list `v` of `lists`.
fn push_at(lists: &mut Vec<Vec<usize>>, v: usize, x: usize)
    requires
        v < old(lists)@.len(),
    ensures
        final(lists)@.len() == old(lists)@.len(),
        final(lists)@[v as int]@ == old(lists)@[v as int]@.push(x),
        forall|k: int| 0 <= k < old(lists)@.len() && k != v ==> #[trigger] final(lists)@[k] == old(lists)@[k],
{
    let mut list: Vec<usize> = Vec::new();
    std::mem::swap(&mut list, &mut lists[v]);
    list.push(x);
    lists.set(v, list);
}

/// For every variable, the indices of the clauses its literals occur in: the
/// first list holds the positive occurrences, the second the negative. Both
/// have length `num_vars`, and each variable's list is in clause order.
pub fn occurrence_lists(clauses: &[Clause], num_vars: usize) -> (r: (Vec<Vec<usize>>, Vec<Vec<usize>>))
    ensures
        r.0@.len() == num_vars,
        r.1@.len() == num_vars,
        forall|k: int| 0 <= k < num_vars ==> (#[trigger] r.0@[k])@ == occurrence_list(clauses@, k, true),
        forall|k: int| 0 <= k < num_vars ==> (#[trigger] r.1@[k])@ == occurrence_list(clauses@, k, false),
{
    let mut pos: Vec<Vec<usize>> = Vec::new();
    let mut neg: Vec<Vec<usize>> = Vec::new();
    let mut n: usize = 0;
    while n < num_vars
        invariant
            n <= num_vars,
            pos@.len() == n,
            neg@.len() == n,
            forall|k: int| 0 <= k < n ==> (#[trigger] pos@[k])@ == Seq::<usize>::empty(),
            forall|k: int| 0 <= k < n ==> (#[trigger] neg@[k])@ == Seq::<usize>::empty(),
        decreases num_vars - n,
    {
        pos.push(Vec::new());
        neg.push(Vec::new());
        n = n + 1;
    }
    let mut i: usize = 0;
    while i < clauses.len()
        invariant
            i <= clauses@.len(),
            pos@.len() == num_vars,
            neg@.len() == num_vars,
            forall|k: int| 0 <= k < num_vars ==> (#[trigger] pos@[k])@ == occurrence_list(clauses@.take(i as int), k, true),
            forall|k: int| 0 <= k < num_vars ==> (#[trigger] neg@[k])@ == occurrence_list(clauses@.take(i as int), k, false),
        decreases clauses@.len() - i,
    {
        let lits = &clauses[i].literals;
        let ghost pos0 = pos@;
        let ghost neg0 = neg@;
        let mut j: usize = 0;
        while j < lits.len()
            invariant
                i < clauses@.len(),
                *lits == clauses@[i as int].literals,
                j <= lits@.len(),
                pos@.len() == num_vars,
                neg@.len() == num_vars,
                pos0.len() == num_vars,
                neg0.len() == num_vars,
                forall|k: int| 0 <= k < num_vars ==> (#[trigger] pos@[k])@ == pos0[k]@ + Seq::new(
                    lit_count(lits@.take(j as int), k, Some(true)),
                    |_q: int| i,
                ),
                forall|k: int| 0 <= k < num_vars ==> (#[trigger] neg@[k])@ == neg0[k]@ + Seq::new(
                    lit_count(lits@.take(j as int), k, Some(false)),
                    |_q: int| i,
                ),
            decreases lits@.len() - j,
        {
            let lit = lits[j];
            let v = lit.var.idx();
            proof {
                assert(lits@.take(j + 1).drop_last() == lits@.take(j as int));
                assert(lits@.take(j + 1).last() == lits@[j as int]);
            }
            let ghost pos1 = pos@;
            let ghost neg1 = neg@;
            if v < num_vars {
                if lit.positive {
                    push_at(&mut pos, v, i);
                } else {
                    push_at(&mut neg, v, i);
                }
            }
            proof {
                assert forall|k: int| 0 <= k < num_vars implies (#[trigger] pos@[k])@ == pos0[k]@ + Seq::new(
                    lit_count(lits@.take(j + 1), k, Some(true)),
                    |_q: int| i,
                ) by {
                    assert(pos1[k]@ == pos0[k]@ + Seq::new(lit_count(lits@.take(j as int), k, Some(true)), |_q: int| i));
                    assert(pos0[k]@ + Seq::new(lit_count(lits@.take(j + 1), k, Some(true)), |_q: int| i) =~= if k == v && lit.positive {
                        pos1[k]@.push(i)
                    } else {
                        pos1[k]@
                    });
                }
                assert forall|k: int| 0 <= k < num_vars implies (#[trigger] neg@[k])@ == neg0[k]@ + Seq::new(
                    lit_count(lits@.take(j + 1), k, Some(false)),
                    |_q: int| i,
                ) by {
                    assert(neg1[k]@ == neg0[k]@ + Seq::new(lit_count(lits@.take(j as int), k, Some(false)), |_q: int| i));
                    assert(neg0[k]@ + Seq::new(lit_count(lits@.take(j + 1), k, Some(false)), |_q: int| i) =~= if k == v && !lit.positive {
                        neg1[k]@.push(i)
                    } else {
                        neg1[k]@
                    });
                }
            }
            j = j + 1;
        }
        proof {
            assert(lits@.take(lits@.len() as int) == lits@);
            assert(clauses@.take(i + 1).drop_last() == clauses@.take(i as int));
            assert(clauses@.take(i + 1).last() == clauses@[i as int]);
            assert(clauses@.take(i + 1).len() - 1 == i);
            assert forall|k: int| 0 <= k < num_vars implies (#[trigger] pos@[k])@ == occurrence_list(clauses@.take(i + 1), k, true) by {
                assert(pos0[k]@ == occurrence_list(clauses@.take(i as int), k, true));
            }
            assert forall|k: int| 0 <= k < num_vars implies (#[trigger] neg@[k])@ == occurrence_list(clauses@.take(i + 1), k, false) by {
                assert(neg0[k]@ == occurrence_list(clauses@.take(i as int), k, false));
            }
        }
        i = i + 1;
    }
    proof {
        assert(clauses@.take(clauses@.len() as int) == clauses@);
    }
    (pos, neg)
}

} // verus!
