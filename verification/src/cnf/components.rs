//! Independent components of a formula.
//!
//! Two clauses share a component when a chain of clauses links them through
//! shared variables. A formula that splits is one a consumer can compile a
//! piece at a time, so the split — and the extraction of one piece as a
//! formula in its own right — lives together here.

use super::union_find::UnionFind;
use super::show_set::{ascending, canonical, insert_sorted, locate};
use super::{within_vars, Clause, CnfFormula, Literal, VarId};
use vstd::prelude::*;

verus! {

/// The variable a clause is filed under: that of its first literal, or 0 for
/// the empty clause, which has none.
pub open spec fn clause_key(c: Clause) -> int {
    if c.literals.len() == 0 {
        0
    } else {
        c.literals[0].var.number() as int
    }
}

/// `f` labels every variable of each clause of `clauses[..i]`, and the first
/// `j` variables of clause `i`, as it labels that clause's key.
pub open spec fn links_upto(f: spec_fn(int) -> int, clauses: Seq<Clause>, i: int, j: int) -> bool {
    forall|a: int, b: int|
        0 <= a < clauses.len() && 0 <= b < clauses[a].literals.len() && (a < i || (a == i && b
            < j)) ==> f(#[trigger] clauses[a].literals[b].var.number() as int) == f(
            clause_key(clauses[a]),
        )
}

/// `f` gives all variables of each clause one label.
pub open spec fn links(f: spec_fn(int) -> int, clauses: Seq<Clause>) -> bool {
    links_upto(f, clauses, clauses.len() as int, 0)
}

/// Clauses `i` and `k` lie in one component: every labelling that gives all
/// variables of each clause one label gives the two clauses the same label.
/// Empty clauses, which have no variable, share one component of their own.
pub open spec fn same_component(clauses: Seq<Clause>, i: int, k: int) -> bool {
    forall|f: spec_fn(int) -> int|
        #[trigger] links(f, clauses) ==> f(clause_key(clauses[i])) == f(clause_key(clauses[k]))
}

/// The number past every variable: the key of what names no variable.
pub open spec fn no_var_key() -> u64 {
    0x1_0000_0000u64
}

/// The smallest variable of `lits`, or [`no_var_key`] when there is none.
pub open spec fn lits_min_var(lits: Seq<Literal>) -> u64
    decreases lits.len(),
{
    if lits.len() == 0 {
        no_var_key()
    } else {
        let m = lits_min_var(lits.drop_last());
        let v = lits.last().var.number() as u64;
        if v < m {
            v
        } else {
            m
        }
    }
}

/// The smallest variable of the clauses `group` lists, or [`no_var_key`]
/// when they name none: a group of empty clauses sorts after every group of
/// its size that names a variable.
pub open spec fn group_min_var(clauses: Seq<Clause>, group: Seq<usize>) -> u64
    decreases group.len(),
{
    if group.len() == 0 {
        no_var_key()
    } else {
        let m = group_min_var(clauses, group.drop_last());
        let v = lits_min_var(clauses[group.last() as int].literals@);
        if v < m {
            v
        } else {
            m
        }
    }
}

/// Group `g` sorts no later than group `h`: it lists fewer clauses, or as
/// many and its smallest variable is no larger, a group naming no variable
/// counting as larger than any that names one.
pub open spec fn sorts_before(clauses: Seq<Clause>, g: Seq<usize>, h: Seq<usize>) -> bool {
    g.len() < h.len() || (g.len() == h.len() && group_min_var(clauses, g) <= group_min_var(
        clauses,
        h,
    ))
}

/// Some group of `groups` lists clause `i`.
pub open spec fn listed_in(groups: Seq<Vec<usize>>, i: int) -> bool {
    exists|g: int, p: int|
        0 <= g < groups.len() && 0 <= p < groups[g]@.len() && #[trigger] groups[g]@[p] == i
}

/// `groups` lists the components of `clauses`: each group is a nonempty,
/// ascending list of clause indices, every clause lies in some group, two
/// listed clauses share a group exactly when they share a component, and the
/// groups come smallest first, ties broken by their smallest variable.
pub open spec fn is_component_split(clauses: Seq<Clause>, groups: Seq<Vec<usize>>) -> bool {
    &&& forall|g: int| 0 <= g < groups.len() ==> #[trigger] groups[g]@.len() > 0
    &&& forall|g: int, p: int, q: int|
        0 <= g < groups.len() && 0 <= p < q < groups[g]@.len() ==> #[trigger] groups[g]@[p]
            < #[trigger] groups[g]@[q]
    &&& forall|g: int, p: int|
        0 <= g < groups.len() && 0 <= p < groups[g]@.len() ==> #[trigger] groups[g]@[p]
            < clauses.len()
    &&& forall|i: int| 0 <= i < clauses.len() ==> #[trigger] listed_in(groups, i)
    &&& forall|g: int, p: int, h: int, q: int|
        #![trigger groups[g]@[p], groups[h]@[q]]
        0 <= g < groups.len() && 0 <= p < groups[g]@.len() && 0 <= h < groups.len() && 0 <= q
            < groups[h]@.len() ==> (same_component(
            clauses,
            groups[g]@[p] as int,
            groups[h]@[q] as int,
        ) <==> g == h)
    &&& forall|g: int, h: int|
        0 <= g < h < groups.len() ==> sorts_before(clauses, #[trigger] groups[g]@, #[trigger] groups[h]@)
}

/// The labelling of each element by its representative in `uf`.
spec fn root_labels(uf: UnionFind) -> spec_fn(int) -> int {
    |z: int| uf.root(z)
}

/// `f` agrees with the forest's representatives on `0..n`.
spec fn agrees(f: spec_fn(int) -> int, uf: UnionFind, n: int) -> bool {
    forall|x: int| #![trigger uf.root(x)] 0 <= x < n ==> f(x) == f(uf.root(x))
}

/// A union of `a` and `b` keeps every labelling that agreed with the forest
/// and labels `a` as `b` in agreement with it.
proof fn lemma_agrees_after_union(
    f: spec_fn(int) -> int,
    before: UnionFind,
    after: UnionFind,
    a: int,
    b: int,
)
    requires
        before.wf(),
        after.size() == before.size(),
        0 <= a < before.size(),
        0 <= b < before.size(),
        agrees(f, before, before.size() as int),
        f(a) == f(b),
        after.root(a) == before.root(a) || after.root(a) == before.root(b),
        forall|y: int|
            0 <= y < before.size() ==> #[trigger] after.root(y) == if before.root(y) == before.root(
                a,
            ) || before.root(y) == before.root(b) {
                after.root(a)
            } else {
                before.root(y)
            },
    ensures
        agrees(f, after, after.size() as int),
{
    assert(f(a) == f(before.root(a)));
    assert(f(b) == f(before.root(b)));
    assert forall|y: int| #![trigger after.root(y)] 0 <= y < after.size() implies f(y) == f(
        after.root(y),
    ) by {
        assert(f(y) == f(before.root(y)));
    }
}

/// The smallest variable of `lits`.
fn min_var_of(lits: &Vec<Literal>) -> (r: u64)
    ensures
        r == lits_min_var(lits@),
{
    let mut m: u64 = 0x1_0000_0000u64;
    let mut j: usize = 0;
    while j < lits.len()
        invariant
            j <= lits.len(),
            m == lits_min_var(lits@.take(j as int)),
        decreases lits.len() - j,
    {
        let v = lits[j].var.get() as u64;
        proof {
            assert(lits@.take(j + 1).drop_last() =~= lits@.take(j as int));
        }
        if v < m {
            m = v;
        }
        j = j + 1;
    }
    proof {
        assert(lits@.take(lits.len() as int) =~= lits@);
    }
    m
}

/// The smallest variable of the clauses `group` lists.
fn group_min(clauses: &[Clause], group: &Vec<usize>) -> (r: u64)
    requires
        forall|p: int| 0 <= p < group@.len() ==> #[trigger] group@[p] < clauses@.len(),
    ensures
        r == group_min_var(clauses@, group@),
{
    let mut m: u64 = 0x1_0000_0000u64;
    let mut q: usize = 0;
    while q < group.len()
        invariant
            q <= group.len(),
            forall|p: int| 0 <= p < group@.len() ==> #[trigger] group@[p] < clauses@.len(),
            m == group_min_var(clauses@, group@.take(q as int)),
        decreases group.len() - q,
    {
        let v = min_var_of(&clauses[group[q]].literals);
        proof {
            assert(group@.take(q + 1).drop_last() =~= group@.take(q as int));
        }
        if v < m {
            m = v;
        }
        q = q + 1;
    }
    proof {
        assert(group@.take(group.len() as int) =~= group@);
    }
    m
}

/// Whether a group of `a_len` clauses with smallest variable `a_min` sorts
/// strictly before one of `b_len` clauses with smallest variable `b_min`.
fn strictly_before(a_len: usize, a_min: u64, b_len: usize, b_min: u64) -> (r: bool)
    ensures
        r == (a_len < b_len || (a_len == b_len && a_min < b_min)),
{
    a_len < b_len || (a_len == b_len && a_min < b_min)
}

/// Joins the variables of every clause in one forest over `0..=num_vars`.
fn link_clauses(clauses: &[Clause], num_vars: u32) -> (uf: UnionFind)
    requires
        within_vars(clauses@, num_vars as int),
        (num_vars as int) < usize::MAX,
    ensures
        uf.wf(),
        uf.size() == num_vars + 1,
        links(root_labels(uf), clauses@),
        forall|f: spec_fn(int) -> int|
            #[trigger] links(f, clauses@) ==> agrees(f, uf, num_vars + 1),
{
    let n: usize = num_vars as usize + 1;
    let mut uf = UnionFind::new(n);
    proof {
        assert forall|f: spec_fn(int) -> int| #[trigger]
            links_upto(f, clauses@, 0, 0) implies agrees(f, uf, n as int) by {
            assert forall|x: int| #![trigger uf.root(x)] 0 <= x < n implies f(x) == f(
                uf.root(x),
            ) by {
                assert(uf.root(x) == x);
            }
        }
    }
    let mut i: usize = 0;
    while i < clauses.len()
        invariant
            i <= clauses.len(),
            within_vars(clauses@, num_vars as int),
            n == num_vars + 1,
            uf.wf(),
            uf.size() == n,
            forall|a: int, b: int|
                0 <= a < i && 0 <= b < clauses@[a].literals.len() ==> uf.root(
                    #[trigger] clauses@[a].literals[b].var.number() as int,
                ) == uf.root(clause_key(clauses@[a])),
            forall|f: spec_fn(int) -> int|
                #[trigger] links_upto(f, clauses@, i as int, 0) ==> agrees(f, uf, n as int),
        decreases clauses.len() - i,
    {
        let lits = &clauses[i].literals;
        if lits.len() > 0 {
            let first: usize = lits[0].var.get() as usize;
            proof {
                assert(clauses@[i as int].literals[0].var.number() <= num_vars);
                assert forall|f: spec_fn(int) -> int| #[trigger]
                    links_upto(f, clauses@, i as int, 1) implies agrees(f, uf, n as int) by {
                    assert(links_upto(f, clauses@, i as int, 0));
                }
            }
            let mut j: usize = 1;
            while j < lits.len()
                invariant
                    1 <= j <= lits.len(),
                    lits@ == clauses@[i as int].literals@,
                    i < clauses.len(),
                    within_vars(clauses@, num_vars as int),
                    first == clause_key(clauses@[i as int]),
                    first < n,
                    n == num_vars + 1,
                    uf.wf(),
                    uf.size() == n,
                    forall|a: int, b: int|
                        0 <= a < clauses@.len() && 0 <= b < clauses@[a].literals.len() && (a < i
                            || (a == i && b < j)) ==> uf.root(
                            #[trigger] clauses@[a].literals[b].var.number() as int,
                        ) == uf.root(clause_key(clauses@[a])),
                    forall|f: spec_fn(int) -> int|
                        #[trigger] links_upto(f, clauses@, i as int, j as int) ==> agrees(
                            f,
                            uf,
                            n as int,
                        ),
                decreases lits.len() - j,
            {
                let v: usize = lits[j].var.get() as usize;
                proof {
                    assert(clauses@[i as int].literals[j as int].var.number() <= num_vars);
                }
                let ghost before = uf;
                uf.union(first, v);
                proof {
                    assert forall|a: int, b: int|
                        0 <= a < clauses@.len() && 0 <= b < clauses@[a].literals.len() && (a < i
                            || (a == i && b < j + 1)) implies uf.root(
                        #[trigger] clauses@[a].literals[b].var.number() as int,
                    ) == uf.root(clause_key(clauses@[a])) by {
                        assert(clauses@[a].literals[b].var.number() <= num_vars);
                        if a == i && b == j {
                        } else {
                            assert(before.root(clauses@[a].literals[b].var.number() as int)
                                == before.root(clause_key(clauses@[a])));
                            if clauses@[a].literals.len() > 0 {
                                assert(clauses@[a].literals[0].var.number() <= num_vars);
                            }
                        }
                    }
                    assert forall|f: spec_fn(int) -> int| #[trigger]
                        links_upto(f, clauses@, i as int, j + 1) implies agrees(
                        f,
                        uf,
                        n as int,
                    ) by {
                        assert(links_upto(f, clauses@, i as int, j as int));
                        assert(f(clauses@[i as int].literals[j as int].var.number() as int) == f(
                            clause_key(clauses@[i as int]),
                        ));
                        lemma_agrees_after_union(f, before, uf, first as int, v as int);
                    }
                }
                j = j + 1;
            }
            proof {
                assert forall|f: spec_fn(int) -> int| #[trigger]
                    links_upto(f, clauses@, i + 1, 0) implies agrees(f, uf, n as int) by {
                    assert(links_upto(f, clauses@, i as int, lits.len() as int));
                }
            }
        } else {
            proof {
                assert forall|f: spec_fn(int) -> int| #[trigger]
                    links_upto(f, clauses@, i + 1, 0) implies agrees(f, uf, n as int) by {
                    assert(links_upto(f, clauses@, i as int, 0));
                }
            }
        }
        i = i + 1;
    }
    proof {
        assert(links(root_labels(uf), clauses@));
    }
    uf
}

/// The representative of clause `i`'s key in `uf`.
spec fn rep_of(clauses: Seq<Clause>, uf: UnionFind, i: int) -> int {
    uf.root(clause_key(clauses[i]))
}

/// Two clauses share a component exactly when their keys share a
/// representative in a forest that joined each clause's variables and no more.
proof fn lemma_same_component_iff(clauses: Seq<Clause>, uf: UnionFind, num_vars: int, i: int, k: int)
    requires
        0 <= num_vars,
        uf.wf(),
        uf.size() == num_vars + 1,
        within_vars(clauses, num_vars),
        links(root_labels(uf), clauses),
        forall|f: spec_fn(int) -> int| #[trigger] links(f, clauses) ==> agrees(f, uf, num_vars + 1),
        0 <= i < clauses.len(),
        0 <= k < clauses.len(),
    ensures
        same_component(clauses, i, k) <==> rep_of(clauses, uf, i) == rep_of(clauses, uf, k),
{
    if clauses[i].literals.len() > 0 {
        assert(clauses[i].literals[0].var.number() <= num_vars);
    }
    if clauses[k].literals.len() > 0 {
        assert(clauses[k].literals[0].var.number() <= num_vars);
    }
    assert(0 <= clause_key(clauses[i]) < num_vars + 1);
    assert(0 <= clause_key(clauses[k]) < num_vars + 1);
    if same_component(clauses, i, k) {
        assert(links(root_labels(uf), clauses));
        assert((root_labels(uf))(clause_key(clauses[i])) == (root_labels(uf))(clause_key(clauses[k])));
    }
    if rep_of(clauses, uf, i) == rep_of(clauses, uf, k) {
        assert forall|f: spec_fn(int) -> int| #[trigger] links(f, clauses) implies f(
            clause_key(clauses[i]),
        ) == f(clause_key(clauses[k])) by {
            assert(agrees(f, uf, num_vars + 1));
            assert(f(clause_key(clauses[i])) == f(uf.root(clause_key(clauses[i]))));
            assert(f(clause_key(clauses[k])) == f(uf.root(clause_key(clauses[k]))));
        }
    }
}

/// `groups` files each clause of `clauses` under the representative of its key
/// in `uf`, one group per representative, `heads[g]` being group `g`'s; the
/// clauses of a group ascend.
spec fn buckets_ok(clauses: Seq<Clause>, uf: UnionFind, groups: Seq<Vec<usize>>, heads: Seq<int>) -> bool {
    &&& groups.len() == heads.len()
    &&& forall|g: int| 0 <= g < groups.len() ==> #[trigger] groups[g]@.len() > 0
    &&& forall|g: int, p: int, q: int|
        0 <= g < groups.len() && 0 <= p < q < groups[g]@.len() ==> #[trigger] groups[g]@[p]
            < #[trigger] groups[g]@[q]
    &&& forall|g: int, p: int|
        0 <= g < groups.len() && 0 <= p < groups[g]@.len() ==> #[trigger] groups[g]@[p]
            < clauses.len() && rep_of(clauses, uf, groups[g]@[p] as int) == heads[g]
    &&& forall|g: int, h: int| 0 <= g < h < groups.len() ==> #[trigger] heads[g] != #[trigger] heads[h]
    &&& forall|i: int| 0 <= i < clauses.len() ==> #[trigger] listed_in(groups, i)
}

/// Files every clause under the representative of its key, keeping the
/// representatives `uf` already has.
fn file_clauses(clauses: &[Clause], uf: &mut UnionFind, num_vars: u32) -> (r: (
    Vec<Vec<usize>>,
    Ghost<Seq<int>>,
))
    requires
        old(uf).wf(),
        old(uf).size() == num_vars + 1,
        within_vars(clauses@, num_vars as int),
        (num_vars as int) < usize::MAX,
    ensures
        final(uf).wf(),
        final(uf).size() == old(uf).size(),
        forall|y: int| 0 <= y < old(uf).size() ==> #[trigger] final(uf).root(y) == old(uf).root(y),
        buckets_ok(clauses@, *old(uf), r.0@, r.1@),
        r.0@.len() <= clauses@.len(),
{
    let ghost uf0 = *uf;
    let n: usize = num_vars as usize + 1;
    let mut slot: Vec<usize> = Vec::new();
    let mut x: usize = 0;
    while x < n
        invariant
            x <= n,
            slot.len() == x,
            forall|y: int| 0 <= y < x ==> slot@[y] == usize::MAX,
        decreases n - x,
    {
        slot.push(usize::MAX);
        x = x + 1;
    }
    let mut groups: Vec<Vec<usize>> = Vec::new();
    let ghost mut heads: Seq<int> = Seq::empty();
    let ghost mut gpos: Seq<int> = Seq::empty();
    let ghost mut ppos: Seq<int> = Seq::empty();
    let mut i: usize = 0;
    while i < clauses.len()
        invariant
            i <= clauses.len(),
            within_vars(clauses@, num_vars as int),
            n == num_vars + 1,
            uf0.wf(),
            uf0.size() == n,
            uf.wf(),
            uf.size() == n,
            forall|y: int| 0 <= y < n ==> #[trigger] uf.root(y) == uf0.root(y),
            slot.len() == n,
            groups.len() == heads.len(),
            groups.len() <= i,
            gpos.len() == i,
            ppos.len() == i,
            forall|g: int| 0 <= g < groups.len() ==> #[trigger] groups@[g]@.len() > 0,
            forall|g: int, p: int, q: int|
                0 <= g < groups.len() && 0 <= p < q < groups@[g]@.len() ==> #[trigger] groups@[g]@[p]
                    < #[trigger] groups@[g]@[q],
            forall|g: int, p: int|
                0 <= g < groups.len() && 0 <= p < groups@[g]@.len() ==> #[trigger] groups@[g]@[p]
                    < i && rep_of(clauses@, uf0, groups@[g]@[p] as int) == heads[g],
            forall|g: int| 0 <= g < groups.len() ==> 0 <= #[trigger] heads[g] < n && slot@[heads[g]] == g,
            forall|y: int|
                0 <= y < n && #[trigger] slot@[y] != usize::MAX ==> slot@[y] < groups.len() && heads[slot@[y] as int] == y,
            forall|e: int|
                0 <= e < i ==> 0 <= #[trigger] gpos[e] < groups.len() && 0 <= ppos[e] < groups@[gpos[e]]@.len()
                    && groups@[gpos[e]]@[ppos[e]] == e,
        decreases clauses.len() - i,
    {
        let key: usize = if clauses[i].literals.len() == 0 {
            0
        } else {
            clauses[i].literals[0].var.get() as usize
        };
        proof {
            if clauses@[i as int].literals.len() > 0 {
                assert(clauses@[i as int].literals[0].var.number() <= num_vars);
            }
            assert(key == clause_key(clauses@[i as int]));
            uf0.lemma_root_range(key as int);
        }
        let rep = uf.find(key);
        let s = slot[rep];
        if s == usize::MAX {
            let ghost old_groups = groups@;
            slot.set(rep, groups.len());
            let mut fresh: Vec<usize> = Vec::new();
            fresh.push(i);
            proof {
                heads = heads.push(rep as int);
                gpos = gpos.push(groups.len() as int);
                ppos = ppos.push(0);
            }
            groups.push(fresh);
            proof {
                assert forall|g: int, p: int|
                    0 <= g < groups.len() && 0 <= p < groups@[g]@.len() implies #[trigger] groups@[g]@[p]
                        < i + 1 && rep_of(clauses@, uf0, groups@[g]@[p] as int) == heads[g] by {
                    if g < old_groups.len() {
                        assert(groups@[g] == old_groups[g]);
                    }
                }
                assert forall|e: int|
                    0 <= e < i + 1 implies 0 <= #[trigger] gpos[e] < groups.len() && 0 <= ppos[e] < groups@[gpos[e]]@.len()
                        && groups@[gpos[e]]@[ppos[e]] == e by {
                    if e < i {
                        assert(groups@[gpos[e]] == old_groups[gpos[e]]);
                    }
                }
            }
        } else {
            let ghost old_groups = groups@;
            proof {
                gpos = gpos.push(s as int);
                ppos = ppos.push(groups@[s as int]@.len() as int);
            }
            groups[s].push(i);
            proof {
                assert(groups@ == old_groups.update(s as int, groups@[s as int]));
                assert(groups@[s as int]@ == old_groups[s as int]@.push(i));
                assert forall|g: int, p: int|
                    0 <= g < groups.len() && 0 <= p < groups@[g]@.len() implies #[trigger] groups@[g]@[p]
                        < i + 1 && rep_of(clauses@, uf0, groups@[g]@[p] as int) == heads[g] by {
                    if g != s {
                        assert(groups@[g] == old_groups[g]);
                    } else if p < old_groups[g]@.len() {
                        assert(groups@[g]@[p] == old_groups[g]@[p]);
                    }
                }
                assert forall|g: int, p: int, q: int|
                    0 <= g < groups.len() && 0 <= p < q < groups@[g]@.len() implies #[trigger] groups@[g]@[p]
                        < #[trigger] groups@[g]@[q] by {
                    if g != s {
                        assert(groups@[g] == old_groups[g]);
                    } else if q < old_groups[g]@.len() {
                        assert(groups@[g]@[p] == old_groups[g]@[p]);
                        assert(groups@[g]@[q] == old_groups[g]@[q]);
                    } else {
                        assert(groups@[g]@[p] == old_groups[g]@[p]);
                        assert(old_groups[g]@[p] < i);
                    }
                }
                assert forall|e: int|
                    0 <= e < i + 1 implies 0 <= #[trigger] gpos[e] < groups.len() && 0 <= ppos[e] < groups@[gpos[e]]@.len()
                        && groups@[gpos[e]]@[ppos[e]] == e by {
                    if e < i {
                        if gpos[e] != s {
                            assert(groups@[gpos[e]] == old_groups[gpos[e]]);
                        } else {
                            assert(groups@[gpos[e]]@[ppos[e]] == old_groups[gpos[e]]@[ppos[e]]);
                        }
                    }
                }
            }
        }
        i = i + 1;
    }
    proof {
        assert forall|e: int| 0 <= e < clauses@.len() implies #[trigger] listed_in(groups@, e) by {
            assert(groups@[gpos[e]]@[ppos[e]] == e);
        }
    }
    (groups, Ghost(heads))
}

/// Some entry of `from` is `t`.
spec fn hit(from: Seq<int>, t: int) -> bool {
    exists|k: int| 0 <= k < from.len() && #[trigger] from[k] == t
}

/// The groups reordered smallest first, ties broken by smallest variable;
/// `from[k]` is the position in `groups` of the `k`-th group returned.
fn order_groups(clauses: &[Clause], groups: Vec<Vec<usize>>) -> (r: (Vec<Vec<usize>>, Ghost<Seq<int>>))
    requires
        forall|g: int, p: int|
            0 <= g < groups@.len() && 0 <= p < groups@[g]@.len() ==> #[trigger] groups@[g]@[p]
                < clauses@.len(),
    ensures
        r.0@.len() == groups@.len(),
        r.1@.len() == groups@.len(),
        forall|k: int|
            0 <= k < r.0@.len() ==> 0 <= #[trigger] r.1@[k] < groups@.len() && r.0@[k]@
                == groups@[r.1@[k]]@,
        forall|k1: int, k2: int|
            0 <= k1 < r.1@.len() && 0 <= k2 < r.1@.len() && k1 != k2 ==> #[trigger] r.1@[k1]
                != #[trigger] r.1@[k2],
        forall|t: int| 0 <= t < groups@.len() ==> #[trigger] hit(r.1@, t),
        forall|a: int, b: int|
            0 <= a < b < r.0@.len() ==> sorts_before(clauses@, #[trigger] r.0@[a]@, #[trigger] r.0@[b]@),
{
    let ghost orig = groups@;
    let ghost total = groups@.len();
    let mut groups = groups;
    let mut out: Vec<Vec<usize>> = Vec::new();
    let mut out_len: Vec<usize> = Vec::new();
    let mut out_min: Vec<u64> = Vec::new();
    let ghost mut from: Seq<int> = Seq::empty();
    while groups.len() > 0
        invariant
            orig.len() == total,
            groups@ == orig.take(groups@.len() as int),
            groups@.len() <= total,
            forall|g: int, p: int|
                0 <= g < orig.len() && 0 <= p < orig[g]@.len() ==> #[trigger] orig[g]@[p]
                    < clauses@.len(),
            out@.len() == total - groups@.len(),
            from.len() == out@.len(),
            out_len@.len() == out@.len(),
            out_min@.len() == out@.len(),
            forall|k: int|
                0 <= k < out@.len() ==> groups@.len() <= #[trigger] from[k] < total && out@[k]@
                    == orig[from[k]]@ && out_len@[k] == out@[k]@.len() && out_min@[k]
                    == group_min_var(clauses@, out@[k]@),
            forall|k1: int, k2: int|
                0 <= k1 < from.len() && 0 <= k2 < from.len() && k1 != k2 ==> #[trigger] from[k1]
                    != #[trigger] from[k2],
            forall|t: int| groups@.len() <= t < total ==> #[trigger] hit(from, t),
            forall|a: int, b: int|
                0 <= a < b < out@.len() ==> sorts_before(clauses@, #[trigger] out@[a]@, #[trigger] out@[b]@),
        decreases groups@.len(),
    {
        let ghost before_pop = groups@;
        let g = groups.pop().unwrap();
        let ghost t = groups@.len() as int;
        proof {
            assert(g == orig[t]);
            assert(groups@ == orig.take(t));
        }
        let len_g = g.len();
        let min_g = group_min(clauses, &g);
        let mut p: usize = 0;
        while p < out.len() && strictly_before(out_len[p], out_min[p], len_g, min_g)
            invariant
                p <= out@.len(),
                out_len@.len() == out@.len(),
                out_min@.len() == out@.len(),
                forall|k: int|
                    0 <= k < p ==> (out_len@[k] < len_g || (out_len@[k] == len_g
                        && out_min@[k] < min_g)),
            decreases out@.len() - p,
        {
            p = p + 1;
        }
        let ghost old_out = out@;
        let ghost old_from = from;
        let ghost old_len = out_len@;
        let ghost old_min = out_min@;
        proof {
            assert forall|k: int| 0 <= k < old_out.len() implies #[trigger] old_len[k] == old_out[k]@.len()
                && old_min[k] == group_min_var(clauses@, old_out[k]@) by {
                assert(groups@.len() <= from[k]);
            }
            assert(p < old_out.len() ==> !(old_len[p as int] < len_g || (old_len[p as int] == len_g
                && old_min[p as int] < min_g)));
        }
        out.insert(p, g);
        out_len.insert(p, len_g);
        out_min.insert(p, min_g);
        proof {
            from = from.insert(p as int, t);
            assert forall|k: int|
                0 <= k < out@.len() implies groups@.len() <= #[trigger] from[k] < total && out@[k]@
                    == orig[from[k]]@ && out_len@[k] == out@[k]@.len() && out_min@[k]
                    == group_min_var(clauses@, out@[k]@) by {
                if k < p {
                    assert(from[k] == old_from[k]);
                } else if k > p {
                    assert(from[k] == old_from[k - 1]);
                }
            }
            assert forall|k1: int, k2: int|
                0 <= k1 < from.len() && 0 <= k2 < from.len() && k1 != k2 implies #[trigger] from[k1]
                    != #[trigger] from[k2] by {
                if k1 != p as int && k2 != p as int {
                    let j1 = if k1 < p { k1 } else { k1 - 1 };
                    let j2 = if k2 < p { k2 } else { k2 - 1 };
                    assert(from[k1] == old_from[j1]);
                    assert(from[k2] == old_from[j2]);
                } else if k1 == p as int {
                    let j2 = if k2 < p { k2 } else { k2 - 1 };
                    assert(from[k2] == old_from[j2]);
                } else {
                    let j1 = if k1 < p { k1 } else { k1 - 1 };
                    assert(from[k1] == old_from[j1]);
                }
            }
            assert forall|u: int| groups@.len() <= u < total implies #[trigger] hit(from, u) by {
                if u == t {
                    assert(from[p as int] == t);
                } else {
                    assert(hit(old_from, u));
                    let k = choose|k: int| 0 <= k < old_from.len() && #[trigger] old_from[k] == u;
                    if k < p {
                        assert(from[k] == u);
                    } else {
                        assert(from[k + 1] == u);
                    }
                }
            }
            assert forall|a: int, b: int|
                0 <= a < b < out@.len() implies sorts_before(clauses@, #[trigger] out@[a]@, #[trigger] out@[b]@) by {
                if b < p {
                    assert(out@[a] == old_out[a]);
                    assert(out@[b] == old_out[b]);
                } else if b == p {
                    assert(out@[a] == old_out[a]);
                    assert(out@[b] == g);
                    assert(old_len[a] < len_g || (old_len[a] == len_g && old_min[a] < min_g));
                    assert(old_len[a] == old_out[a]@.len());
                    assert(old_min[a] == group_min_var(clauses@, old_out[a]@));
                } else if a < p {
                    assert(out@[a] == old_out[a]);
                    assert(out@[b] == old_out[b - 1]);
                    assert(sorts_before(clauses@, old_out[a]@, old_out[b - 1]@));
                } else if a == p {
                    assert(out@[a] == g);
                    assert(out@[b] == old_out[b - 1]);
                    assert(old_len[p as int] == old_out[p as int]@.len());
                    assert(old_min[p as int] == group_min_var(clauses@, old_out[p as int]@));
                    assert(sorts_before(clauses@, g@, old_out[p as int]@));
                    if b - 1 > p {
                        assert(sorts_before(clauses@, old_out[p as int]@, old_out[b - 1]@));
                    }
                } else {
                    assert(out@[a] == old_out[a - 1]);
                    assert(out@[b] == old_out[b - 1]);
                }
            }
        }
    }
    (out, Ghost(from))
}

/// Reordered buckets list the components.
proof fn lemma_split_from_buckets(
    clauses: Seq<Clause>,
    uf: UnionFind,
    num_vars: int,
    groups: Seq<Vec<usize>>,
    heads: Seq<int>,
    out: Seq<Vec<usize>>,
    from: Seq<int>,
)
    requires
        0 <= num_vars,
        uf.wf(),
        uf.size() == num_vars + 1,
        within_vars(clauses, num_vars),
        links(root_labels(uf), clauses),
        forall|f: spec_fn(int) -> int| #[trigger] links(f, clauses) ==> agrees(f, uf, num_vars + 1),
        buckets_ok(clauses, uf, groups, heads),
        out.len() == groups.len(),
        from.len() == groups.len(),
        forall|k: int|
            0 <= k < out.len() ==> 0 <= #[trigger] from[k] < groups.len() && out[k]@ == groups[from[k]]@,
        forall|k1: int, k2: int|
            0 <= k1 < from.len() && 0 <= k2 < from.len() && k1 != k2 ==> #[trigger] from[k1]
                != #[trigger] from[k2],
        forall|t: int| 0 <= t < groups.len() ==> #[trigger] hit(from, t),
        forall|a: int, b: int|
            0 <= a < b < out.len() ==> sorts_before(clauses, #[trigger] out[a]@, #[trigger] out[b]@),
    ensures
        is_component_split(clauses, out),
{
    assert forall|g: int| 0 <= g < out.len() implies #[trigger] out[g]@.len() > 0 by {
        assert(groups[from[g]]@.len() > 0);
    }
    assert forall|g: int, p: int, q: int|
        0 <= g < out.len() && 0 <= p < q < out[g]@.len() implies #[trigger] out[g]@[p]
            < #[trigger] out[g]@[q] by {
        assert(groups[from[g]]@[p] < groups[from[g]]@[q]);
    }
    assert forall|g: int, p: int| 0 <= g < out.len() && 0 <= p < out[g]@.len() implies #[trigger] out[g]@[p]
        < clauses.len() by {
        assert(groups[from[g]]@[p] < clauses.len());
    }
    assert forall|i: int| 0 <= i < clauses.len() implies #[trigger] listed_in(out, i) by {
        assert(listed_in(groups, i));
        let (t, p) = choose|t: int, p: int|
            0 <= t < groups.len() && 0 <= p < groups[t]@.len() && #[trigger] groups[t]@[p] == i;
        assert(hit(from, t));
        let k = choose|k: int| 0 <= k < from.len() && #[trigger] from[k] == t;
        assert(out[k]@[p] == i);
    }
    assert forall|g: int, p: int, h: int, q: int|
        #![trigger out[g]@[p], out[h]@[q]]
        0 <= g < out.len() && 0 <= p < out[g]@.len() && 0 <= h < out.len() && 0 <= q
            < out[h]@.len() implies (same_component(
            clauses,
            out[g]@[p] as int,
            out[h]@[q] as int,
        ) <==> g == h) by {
        let e1 = out[g]@[p] as int;
        let e2 = out[h]@[q] as int;
        assert(e1 == groups[from[g]]@[p]);
        assert(e2 == groups[from[h]]@[q]);
        assert(e1 < clauses.len() && rep_of(clauses, uf, e1) == heads[from[g]]);
        assert(e2 < clauses.len() && rep_of(clauses, uf, e2) == heads[from[h]]);
        lemma_same_component_iff(clauses, uf, num_vars, e1, e2);
        if g != h {
            assert(from[g] != from[h]);
            if from[g] < from[h] {
                assert(heads[from[g]] != heads[from[h]]);
            } else {
                assert(heads[from[h]] != heads[from[g]]);
            }
        }
    }
}

/// Every clause of `clauses` lies in one component with every other.
pub open spec fn one_component(clauses: Seq<Clause>) -> bool {
    forall|i: int, k: int|
        0 <= i < clauses.len() && 0 <= k < clauses.len() ==> #[trigger] same_component(clauses, i, k)
}

/// The independent components of `clauses` over a universe of `num_vars`
/// variables, as groups of indices into `clauses`, smallest group first.
/// `None` when the clauses form a single component — the common case, and the
/// answer that lets a caller skip a partition it would not use.
///
/// The clause-slice form of [`CnfFormula::detect_components`], for a caller
/// holding clauses it has not wrapped in a formula: a residual part-way through
/// a search, a cofactor still being built. `num_vars` is the universe the
/// clauses are numbered over, not a count of the variables they mention.
///
/// The order is stable: groups are sorted by size and then by their smallest
/// variable, so the same clauses always split the same way. A consumer that
/// composes its per-component results in this order gets the same composition
/// every run.
pub fn detect_components_in(clauses: &[Clause], num_vars: u32) -> (r: Option<Vec<Vec<usize>>>)
    requires
        within_vars(clauses@, num_vars as int),
        (num_vars as int) < usize::MAX,
    ensures
        match r {
            None => clauses@.len() <= 1 || one_component(clauses@),
            Some(groups) => groups@.len() >= 2 && is_component_split(clauses@, groups@),
        },
{
    if clauses.len() <= 1 {
        return None;
    }
    let mut uf = link_clauses(clauses, num_vars);
    let ghost uf0 = uf;
    let (groups, Ghost(heads)) = file_clauses(clauses, &mut uf, num_vars);
    if groups.len() <= 1 {
        proof {
            assert forall|i: int, k: int|
                0 <= i < clauses@.len() && 0 <= k < clauses@.len() implies #[trigger] same_component(
                clauses@,
                i,
                k,
            ) by {
                assert(listed_in(groups@, i));
                assert(listed_in(groups@, k));
                let (gi, pi) = choose|g: int, p: int|
                    0 <= g < groups@.len() && 0 <= p < groups@[g]@.len() && #[trigger] groups@[g]@[p] == i;
                let (gk, pk) = choose|g: int, p: int|
                    0 <= g < groups@.len() && 0 <= p < groups@[g]@.len() && #[trigger] groups@[g]@[p] == k;
                assert(groups@[gi]@[pi] < clauses@.len());
                assert(groups@[gk]@[pk] < clauses@.len());
                lemma_same_component_iff(clauses@, uf0, num_vars as int, i, k);
            }
        }
        return None;
    }
    let (out, Ghost(from)) = order_groups(clauses, groups);
    proof {
        lemma_split_from_buckets(clauses@, uf0, num_vars as int, groups@, heads, out@, from);
    }
    Some(out)
}

impl CnfFormula {
    /// Detect independent components via union-find over variables.
    ///
    /// Returns `None` if there is only 1 component (no benefit from
    /// decomposition). Otherwise returns clause index groups (into
    /// `self.clauses`) sorted smallest-first.
    pub fn detect_components(&self) -> (r: Option<Vec<Vec<usize>>>)
        requires
            within_vars(self.clauses@, self.num_vars as int),
            (self.num_vars as int) < usize::MAX,
        ensures
            match r {
                None => self.clauses@.len() <= 1 || one_component(self.clauses@),
                Some(groups) => groups@.len() >= 2 && is_component_split(self.clauses@, groups@),
            },
    {
        detect_components_in(self.clauses.as_slice(), self.num_vars)
    }
}


/// Variable `n` occurs in one of the clauses of `clauses` that `picked`
/// names.
pub open spec fn mentions(clauses: Seq<Clause>, picked: Seq<usize>, n: u32) -> bool {
    exists|k: int, j: int|
        0 <= k < picked.len() && 0 <= j < clauses[picked[k] as int].literals.len()
            && #[trigger] clauses[picked[k] as int].literals[j].var.number() == n
}

/// The components of a split share no variable: a variable that a clause of
/// one group mentions is mentioned by no clause of another group.
pub proof fn lemma_split_shares_no_variable(clauses: Seq<Clause>, groups: Seq<Vec<usize>>, g: int, h: int, v: u32)
    requires
        is_component_split(clauses, groups),
        0 <= g < groups.len(),
        0 <= h < groups.len(),
        g != h,
        mentions(clauses, groups[g]@, v),
    ensures
        !mentions(clauses, groups[h]@, v),
{
    if mentions(clauses, groups[h]@, v) {
        let (p, j) = choose|p: int, j: int|
            0 <= p < groups[g]@.len() && 0 <= j < clauses[groups[g]@[p] as int].literals.len()
                && #[trigger] clauses[groups[g]@[p] as int].literals[j].var.number() == v;
        let (q, k) = choose|q: int, k: int|
            0 <= q < groups[h]@.len() && 0 <= k < clauses[groups[h]@[q] as int].literals.len()
                && #[trigger] clauses[groups[h]@[q] as int].literals[k].var.number() == v;
        let a = groups[g]@[p] as int;
        let b = groups[h]@[q] as int;
        assert(same_component(clauses, a, b)) by {
            assert forall|f: spec_fn(int) -> int| #[trigger] links(f, clauses) implies f(clause_key(clauses[a])) == f(
                clause_key(clauses[b]),
            ) by {
                assert(f(clauses[a].literals[j].var.number() as int) == f(clause_key(clauses[a])));
                assert(f(clauses[b].literals[k].var.number() as int) == f(clause_key(clauses[b])));
            }
        }
    }
}

/// The groups of a split share no clause, and no group lists one twice.
pub proof fn lemma_split_shares_no_clause(clauses: Seq<Clause>, groups: Seq<Vec<usize>>, g: int, p: int, h: int, q: int)
    requires
        is_component_split(clauses, groups),
        0 <= g < groups.len(),
        0 <= p < groups[g]@.len(),
        0 <= h < groups.len(),
        0 <= q < groups[h]@.len(),
        groups[g]@[p] == groups[h]@[q],
    ensures
        g == h,
        p == q,
{
    let c = groups[g]@[p] as int;
    assert(same_component(clauses, c, c));
    assert(same_component(clauses, groups[g]@[p] as int, groups[h]@[q] as int));
    if p < q {
        assert(groups[g]@[p] < groups[g]@[q]);
    } else if q < p {
        assert(groups[g]@[q] < groups[g]@[p]);
    }
}

/// The numbers of the variables `vars` lists, in its order.
pub open spec fn numbers(vars: Seq<VarId>) -> Seq<u32> {
    vars.map_values(|v: VarId| v.number())
}

/// `local` is `global` carried into the component's own numbering, where
/// variable `i` is the `i`-th entry of `local_to_global`.
pub open spec fn localized(local_to_global: Seq<VarId>, local: Literal, global: Literal) -> bool {
    &&& local.positive == global.positive
    &&& 1 <= local.var.number() <= local_to_global.len()
    &&& local_to_global[local.var.number() - 1] == global.var
}

/// A strictly ascending sequence of nonzero `u32`s is no longer than
/// `u32::MAX`: its `i`-th entry is at least `i + 1`.
proof fn lemma_canonical_floor(s: Seq<u32>, i: int)
    requires
        canonical(s),
        0 <= i < s.len(),
    ensures
        s[i] >= i + 1,
    decreases i,
{
    if s[i] == 0 {
        assert(s.contains(0));
    }
    if i > 0 {
        lemma_canonical_floor(s, i - 1);
        assert(s[i - 1] < s[i]);
    }
}

/// The numbers of every variable the picked clauses mention, ascending and
/// each once.
pub(crate) fn mentioned_numbers(clauses: &Vec<Clause>, picked: &[usize]) -> (r: Vec<u32>)
    requires
        forall|k: int| 0 <= k < picked@.len() ==> (#[trigger] picked@[k]) < clauses@.len(),
    ensures
        canonical(r@),
        forall|x: u32| #[trigger] r@.contains(x) <==> mentions(clauses@, picked@, x),
{
    let mut nums: Vec<u32> = Vec::new();
    let mut k: usize = 0;
    while k < picked.len()
        invariant
            k <= picked@.len(),
            forall|q: int| 0 <= q < picked@.len() ==> (#[trigger] picked@[q]) < clauses@.len(),
            canonical(nums@),
            forall|x: u32| #[trigger] nums@.contains(x) <==> mentions(clauses@, picked@.take(k as int), x),
        decreases picked@.len() - k,
    {
        let lits = &clauses[picked[k]].literals;
        let ghost c = picked@[k as int] as int;
        let mut j: usize = 0;
        while j < lits.len()
            invariant
                k < picked@.len(),
                c == picked@[k as int] as int,
                0 <= c < clauses@.len(),
                *lits == clauses@[c].literals,
                j <= lits@.len(),
                canonical(nums@),
                forall|x: u32| #[trigger] nums@.contains(x) <==> (
                    mentions(clauses@, picked@.take(k as int), x)
                    || exists|jj: int| 0 <= jj < j && #[trigger] lits@[jj].var.number() == x
                ),
            decreases lits@.len() - j,
        {
            let n = lits[j].var.get();
            let ghost before = nums@;
            insert_sorted(&mut nums, n);
            proof {
                assert(!before.contains(0));
                assert(!nums@.contains(0));
                assert forall|x: u32| #[trigger] nums@.contains(x) <==> (
                    mentions(clauses@, picked@.take(k as int), x)
                    || exists|jj: int| 0 <= jj < j + 1 && #[trigger] lits@[jj].var.number() == x
                ) by {
                    if x == n {
                        assert(lits@[j as int].var.number() == x);
                    }
                    if exists|jj: int| 0 <= jj < j + 1 && #[trigger] lits@[jj].var.number() == x {
                        let jj = choose|jj: int| 0 <= jj < j + 1 && #[trigger] lits@[jj].var.number() == x;
                        if jj < j {
                            assert(before.contains(x));
                        }
                    }
                }
            }
            j = j + 1;
        }
        proof {
            let t = picked@.take(k as int);
            let t1 = picked@.take(k as int + 1);
            assert forall|x: u32| #[trigger] nums@.contains(x) <==> mentions(clauses@, t1, x) by {
                if mentions(clauses@, t, x) {
                    let (q, jj) = choose|q: int, jj: int|
                        0 <= q < t.len() && 0 <= jj < clauses@[t[q] as int].literals.len()
                            && #[trigger] clauses@[t[q] as int].literals[jj].var.number() == x;
                    assert(t1[q] == t[q]);
                }
                if exists|jj: int| 0 <= jj < lits@.len() && #[trigger] lits@[jj].var.number() == x {
                    let jj = choose|jj: int| 0 <= jj < lits@.len() && #[trigger] lits@[jj].var.number() == x;
                    assert(t1[k as int] == picked@[k as int]);
                    assert(clauses@[t1[k as int] as int].literals[jj].var.number() == x);
                }
                if mentions(clauses@, t1, x) {
                    let (q, jj) = choose|q: int, jj: int|
                        0 <= q < t1.len() && 0 <= jj < clauses@[t1[q] as int].literals.len()
                            && #[trigger] clauses@[t1[q] as int].literals[jj].var.number() == x;
                    if q < k {
                        assert(t[q] == t1[q]);
                        assert(clauses@[t[q] as int].literals[jj].var.number() == x);
                    } else {
                        assert(lits@[jj].var.number() == x);
                    }
                }
            }
        }
        k = k + 1;
    }
    proof {
        assert(picked@.take(picked@.len() as int) == picked@);
    }
    nums
}

impl CnfFormula {
    /// Extract a sub-formula for a component with contiguous variable IDs.
    ///
    /// Returns `(sub_formula, local_to_global)`: the picked clauses, in the
    /// order `clause_indices` names them, renumbered so that the variables
    /// they mention become `1..=n` in ascending order of their original
    /// numbers; local variable `v` stands for `local_to_global[v.idx()]`.
    pub fn extract_component(&self, clause_indices: &[usize]) -> (r: (CnfFormula, Vec<VarId>))
        requires
            forall|k: int| 0 <= k < clause_indices@.len() ==> (#[trigger] clause_indices@[k]) < self.clauses@.len(),
        ensures
            canonical(numbers(r.1@)),
            forall|x: u32| #[trigger] numbers(r.1@).contains(x) <==> mentions(self.clauses@, clause_indices@, x),
            r.0.num_vars == r.1@.len(),
            r.0.clauses@.len() == clause_indices@.len(),
            forall|k: int| 0 <= k < clause_indices@.len()
                ==> (#[trigger] r.0.clauses@[k]).literals@.len() == self.clauses@[clause_indices@[k] as int].literals@.len(),
            forall|k: int, j: int| 0 <= k < clause_indices@.len() && 0 <= j < r.0.clauses@[k].literals@.len()
                ==> localized(r.1@, #[trigger] r.0.clauses@[k].literals@[j], self.clauses@[clause_indices@[k] as int].literals@[j]),
    {
        let nums = mentioned_numbers(&self.clauses, clause_indices);
        proof {
            if nums@.len() > 0 {
                lemma_canonical_floor(nums@, nums@.len() - 1);
            }
        }
        let mut local_to_global: Vec<VarId> = Vec::new();
        let mut i: usize = 0;
        while i < nums.len()
            invariant
                i <= nums@.len(),
                nums@.len() <= u32::MAX,
                canonical(nums@),
                local_to_global@.len() == i,
                forall|q: int| 0 <= q < i ==> (#[trigger] local_to_global@[q]).number() == nums@[q],
            decreases nums@.len() - i,
        {
            proof {
                lemma_canonical_floor(nums@, i as int);
            }
            let v = VarId::from_idx((nums[i] - 1) as usize);
            local_to_global.push(v);
            i = i + 1;
        }
        proof {
            assert(numbers(local_to_global@) =~= nums@);
        }
        let mut clauses: Vec<Clause> = Vec::new();
        let mut k: usize = 0;
        while k < clause_indices.len()
            invariant
                k <= clause_indices@.len(),
                forall|q: int| 0 <= q < clause_indices@.len() ==> (#[trigger] clause_indices@[q]) < self.clauses@.len(),
                nums@.len() <= u32::MAX,
                canonical(nums@),
                numbers(local_to_global@) == nums@,
                forall|x: u32| #[trigger] nums@.contains(x) <==> mentions(self.clauses@, clause_indices@, x),
                clauses@.len() == k,
                forall|q: int| 0 <= q < k
                    ==> (#[trigger] clauses@[q]).literals@.len() == self.clauses@[clause_indices@[q] as int].literals@.len(),
                forall|q: int, j: int| 0 <= q < k && 0 <= j < clauses@[q].literals@.len()
                    ==> localized(local_to_global@, #[trigger] clauses@[q].literals@[j], self.clauses@[clause_indices@[q] as int].literals@[j]),
            decreases clause_indices@.len() - k,
        {
            let c = clause_indices[k];
            let lits = &self.clauses[c].literals;
            let mut out: Vec<Literal> = Vec::new();
            let mut j: usize = 0;
            while j < lits.len()
                invariant
                    k < clause_indices@.len(),
                    c == clause_indices@[k as int],
                    c < self.clauses@.len(),
                    *lits == self.clauses@[c as int].literals,
                    j <= lits@.len(),
                    nums@.len() <= u32::MAX,
                    canonical(nums@),
                    numbers(local_to_global@) == nums@,
                    forall|x: u32| #[trigger] nums@.contains(x) <==> mentions(self.clauses@, clause_indices@, x),
                    out@.len() == j,
                    forall|jj: int| 0 <= jj < j ==> localized(local_to_global@, #[trigger] out@[jj], lits@[jj]),
                decreases lits@.len() - j,
            {
                let lit = lits[j];
                let n = lit.var.get();
                proof {
                    assert(self.clauses@[clause_indices@[k as int] as int].literals[j as int].var.number() == n);
                    assert(mentions(self.clauses@, clause_indices@, n));
                }
                let (at, found) = locate(&nums, n);
                proof {
                    assert(local_to_global@[at as int].number() == numbers(local_to_global@)[at as int]);
                    assert(local_to_global@[at as int].number() == n);
                    assert(local_to_global@[at as int] == lit.var) by {
                        local_to_global@[at as int].lemma_number_determines(lit.var);
                    }
                }
                let local = Literal::new(VarId::from_idx(at), lit.positive);
                out.push(local);
                proof {
                    assert(localized(local_to_global@, out@[j as int], lits@[j as int]));
                }
                j = j + 1;
            }
            clauses.push(Clause::new(out));
            proof {
                assert(clauses@[k as int].literals@ == out@);
            }
            k = k + 1;
        }
        proof {
            assert(numbers(local_to_global@) == nums@);
        }
        let sub = CnfFormula { num_vars: local_to_global.len() as u32, clauses };
        (sub, local_to_global)
    }
}

} // verus!
