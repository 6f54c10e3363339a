//! Whether a vtree build belongs to the formula it is about to be written
//! beside. The vtree, the split and the formula are three separate values a
//! caller pairs by hand, and the writers index the formula by clause and by
//! variable on the strength of that pairing, so the pairing is checked whole
//! before anything is written.

use crate::cnf::components::{mentioned_numbers, mentions, numbers};
use crate::cnf::show_set::{canonical, lemma_canonical_unique};
use crate::cnf::{CnfFormula, VarId};
use crate::error::{ErrorKind, VitriError};
use crate::text::{ascii_chars, decimal, decimal_string, signed_decimal, signed_string};
use vstd::prelude::*;

verus! {

/// One component of a split build, as the pairing check reads it: the
/// clauses of the outer formula it claims, how many leaves its vtree has, and
/// the outer variable each of its local variables stands for.
pub struct ComponentClaim {
    /// Clause indices into the outer formula.
    pub clause_indices: Vec<usize>,
    /// The number of leaves of the component's vtree.
    pub vtree_leaves: u32,
    /// Local variable `i + 1` stands for outer variable `local_to_outer[i]`.
    pub local_to_outer: Vec<VarId>,
}

/// The variable that literal `j` of the `q`-th clause component `c` claims
/// names.
pub open spec fn claimed_var(f: CnfFormula, c: ComponentClaim, q: int, j: int) -> u32 {
    f.clauses@[c.clause_indices@[q] as int].literals@[j].var.number()
}

/// Some component before the `k`-th claims variable `v`.
pub open spec fn claimed_before(f: CnfFormula, cs: Seq<ComponentClaim>, k: int, v: u32) -> bool {
    exists|k2: int| 0 <= k2 < k && #[trigger] mentions(f.clauses@, cs[k2].clause_indices@, v)
}

/// Literal `j` of the `q`-th clause the `k`-th component claims names a
/// declared variable that no earlier component claims.
pub open spec fn literal_fits(f: CnfFormula, cs: Seq<ComponentClaim>, k: int, q: int, j: int) -> bool {
    let v = claimed_var(f, cs[k], q, j);
    v <= f.num_vars && !claimed_before(f, cs, k, v)
}

/// The `q`-th clause the `k`-th component claims exists, and each of its
/// literals fits.
pub open spec fn clause_fits(f: CnfFormula, cs: Seq<ComponentClaim>, k: int, q: int) -> bool {
    let ci = cs[k].clause_indices@[q];
    &&& ci < f.clauses@.len()
    &&& forall|j: int| 0 <= j < f.clauses@[ci as int].literals@.len() ==> #[trigger] literal_fits(f, cs, k, q, j)
}

/// The variables the clauses of `c` mention, ascending and each once: the
/// numbering those clauses give the component.
pub open spec fn cut_vars(f: CnfFormula, c: ComponentClaim) -> Seq<u32> {
    choose|s: Seq<u32>| canonical(s) && forall|x: u32| #[trigger] s.contains(x) <==> mentions(f.clauses@, c.clause_indices@, x)
}

/// The `k`-th component claims only clauses that exist and variables no
/// earlier component claims, its vtree has a leaf per variable its clauses
/// cut out, and its local numbering is the one those clauses give.
pub open spec fn component_fits(f: CnfFormula, cs: Seq<ComponentClaim>, k: int) -> bool {
    &&& forall|q: int| 0 <= q < cs[k].clause_indices@.len() ==> #[trigger] clause_fits(f, cs, k, q)
    &&& cs[k].vtree_leaves == cut_vars(f, cs[k]).len()
    &&& numbers(cs[k].local_to_outer@) == cut_vars(f, cs[k])
}

/// The build belongs to `f`: its vtree has a leaf per variable of `f`, and,
/// when it was split, every component fits — so no variable is claimed by two
/// components and every clause a component names is one of `f`'s.
pub open spec fn build_belongs(vtree_leaves: u32, components: Option<Seq<ComponentClaim>>, f: CnfFormula) -> bool {
    &&& vtree_leaves == f.num_vars
    &&& components is Some ==> forall|k: int| 0 <= k < components->Some_0.len()
        ==> #[trigger] component_fits(f, components->Some_0, k)
}

/// `n` in decimal.
pub open spec fn dec(n: nat) -> Seq<char> {
    ascii_chars(decimal(n))
}

/// `n` in decimal, signed.
pub open spec fn sdec(n: int) -> Seq<char> {
    ascii_chars(signed_decimal(n))
}

/// The first component that does not fit.
pub open spec fn first_bad_component(f: CnfFormula, cs: Seq<ComponentClaim>) -> int {
    choose|k: int| 0 <= k < cs.len() && !component_fits(f, cs, k) && forall|k2: int| 0 <= k2 < k ==> #[trigger] component_fits(f, cs, k2)
}

/// The first clause of the `k`-th component that does not fit.
pub open spec fn first_bad_clause(f: CnfFormula, cs: Seq<ComponentClaim>, k: int) -> int {
    choose|q: int| 0 <= q < cs[k].clause_indices@.len() && !clause_fits(f, cs, k, q)
        && forall|q2: int| 0 <= q2 < q ==> #[trigger] clause_fits(f, cs, k, q2)
}

/// The first literal of that clause that does not fit.
pub open spec fn first_bad_literal(f: CnfFormula, cs: Seq<ComponentClaim>, k: int, q: int) -> int {
    choose|j: int| 0 <= j < f.clauses@[cs[k].clause_indices@[q] as int].literals@.len() && !literal_fits(f, cs, k, q, j)
        && forall|j2: int| 0 <= j2 < j ==> #[trigger] literal_fits(f, cs, k, q, j2)
}

/// The earlier component that claims `v`.
pub open spec fn earlier_claimer(f: CnfFormula, cs: Seq<ComponentClaim>, k: int, v: u32) -> int {
    choose|k2: int| 0 <= k2 < k && #[trigger] mentions(f.clauses@, cs[k2].clause_indices@, v)
}

/// The first position at which `a` and `b` disagree, among those both have.
pub open spec fn first_difference(a: Seq<u32>, b: Seq<u32>) -> Option<int> {
    if exists|i: int| 0 <= i < a.len() && i < b.len() && a[i] != b[i] {
        Some(choose|i: int| 0 <= i < a.len() && i < b.len() && a[i] != b[i]
            && forall|i2: int| 0 <= i2 < i ==> #[trigger] a[i2] == b[i2])
    } else {
        None
    }
}

/// How a component's numbering `named` departs from the one `cut` its clauses
/// give.
pub open spec fn numbering_detail(named: Seq<u32>, cut: Seq<u32>) -> Seq<char> {
    match first_difference(named, cut) {
        Some(i) => "local "@ + sdec((((i + 1) as u32) as i32) as int) + " is named as variable "@
            + sdec((named[i] as i32) as int) + " and the clauses put variable "@ + sdec((cut[i] as i32) as int)
            + " there"@,
        None => "the map names "@ + dec(named.len()) + " variables and the clauses cut out "@ + dec(cut.len()),
    }
}

/// What is wrong with the `k`-th component, which does not fit.
pub open spec fn component_fault(f: CnfFormula, cs: Seq<ComponentClaim>, k: int) -> Seq<char> {
    let c = cs[k];
    if exists|q: int| 0 <= q < c.clause_indices@.len() && !#[trigger] clause_fits(f, cs, k, q) {
        let q = first_bad_clause(f, cs, k);
        let ci = c.clause_indices@[q];
        if ci >= f.clauses@.len() {
            "component "@ + dec(k as nat) + " claims clause "@ + dec(ci as nat) + " but the formula has "@
                + dec(f.clauses@.len()) + " clauses; the build does not belong to this formula"@
        } else {
            let v = claimed_var(f, c, q, first_bad_literal(f, cs, k, q));
            if v > f.num_vars {
                "clause "@ + dec(ci as nat) + " names variable "@ + sdec((v as i32) as int)
                    + " but the formula declares "@ + dec(f.num_vars as nat) + " variables"@
            } else {
                "components "@ + dec(earlier_claimer(f, cs, k, v) as nat) + " and "@ + dec(k as nat)
                    + " both claim variable "@ + sdec((v as i32) as int) + "; the build does not belong to this formula"@
            }
        }
    } else if c.vtree_leaves != cut_vars(f, c).len() {
        "component "@ + dec(k as nat) + " vtree has "@ + dec(c.vtree_leaves as nat) + " leaves but its CNF has "@
            + dec(cut_vars(f, c).len()) + " variables; the build does not belong to this formula"@
    } else {
        "component "@ + dec(k as nat) + "'s local-to-outer map is not the numbering its clauses give ("@
            + numbering_detail(numbers(c.local_to_outer@), cut_vars(f, c))
            + "); the build does not belong to this formula"@
    }
}

/// What is wrong with a build that does not belong to `f`: the first check,
/// in the order they are made, that it fails.
pub open spec fn build_fault(vtree_leaves: u32, components: Option<Seq<ComponentClaim>>, f: CnfFormula) -> Seq<char> {
    if vtree_leaves != f.num_vars {
        "vtree has "@ + dec(vtree_leaves as nat) + " leaves but the formula has "@ + dec(f.num_vars as nat)
            + " variables; the build does not belong to this formula"@
    } else {
        match components {
            Some(cs) => component_fault(f, cs, first_bad_component(f, cs)),
            None => Seq::empty(),
        }
    }
}

/// A build with a component that does not fit does not belong.
proof fn lemma_unfit_refused(vtree_leaves: u32, f: CnfFormula, cs: Seq<ComponentClaim>, k: int)
    requires
        0 <= k < cs.len(),
        !component_fits(f, cs, k),
    ensures
        !build_belongs(vtree_leaves, Some(cs), f),
{
    let o: Option<Seq<ComponentClaim>> = Some(cs);
    assert(o->Some_0 == cs);
}

/// Two components that both claim `v`, before the `k`-th, are one, when every
/// component before the `k`-th fits.
proof fn lemma_single_claimer(f: CnfFormula, cs: Seq<ComponentClaim>, k: int, v: u32, a: int, b: int)
    requires
        forall|k2: int| 0 <= k2 < k ==> #[trigger] component_fits(f, cs, k2),
        0 <= a < k,
        0 <= b < k,
        mentions(f.clauses@, cs[a].clause_indices@, v),
        mentions(f.clauses@, cs[b].clause_indices@, v),
    ensures
        a == b,
{
    if a != b {
        let (lo, hi) = if a < b { (a, b) } else { (b, a) };
        assert(component_fits(f, cs, hi));
        let picked = cs[hi].clause_indices@;
        let (q, j) = choose|q: int, j: int|
            0 <= q < picked.len() && 0 <= j < f.clauses@[picked[q] as int].literals.len()
                && #[trigger] f.clauses@[picked[q] as int].literals[j].var.number() == v;
        assert(clause_fits(f, cs, hi, q));
        assert(literal_fits(f, cs, hi, q, j));
        assert(claimed_var(f, cs[hi], q, j) == v);
        assert(mentions(f.clauses@, cs[lo].clause_indices@, v));
        assert(claimed_before(f, cs, hi, v));
    }
}

/// Refuse a build that was not made from `reduced`: `vtree_leaves` is the
/// number of leaves of the whole vtree, and `components` the split's
/// components, or `None` when the formula was built whole. Every clause a
/// component claims must exist, no two components may claim one variable,
/// each component's vtree must have a leaf per variable its clauses cut out,
/// and its local-to-outer map must be the numbering those clauses give. The
/// first check that fails, in that order and component by component, is the
/// one reported.
pub fn check_build_belongs(
    vtree_leaves: u32,
    components: Option<&[ComponentClaim]>,
    reduced: &CnfFormula,
) -> (r: Result<(), VitriError>)
    ensures
        r is Ok <==> build_belongs(vtree_leaves, match components { Some(c) => Some(c@), None => None }, *reduced),
        r matches Err(e) ==> e.spec_kind() == ErrorKind::Mismatch
            && e.text() == build_fault(vtree_leaves, match components { Some(c) => Some(c@), None => None }, *reduced),
{
    let ghost f = *reduced;
    if vtree_leaves != reduced.num_vars {
        let mut m = String::from_str("vtree has ");
        m.append(decimal_string(vtree_leaves as u64).as_str());
        m.append(" leaves but the formula has ");
        m.append(decimal_string(reduced.num_vars as u64).as_str());
        m.append(" variables; the build does not belong to this formula");
        return Err(VitriError::mismatch(m.as_str()));
    }
    let comps = match components {
        None => {
            return Ok(());
        },
        Some(c) => c,
    };
    let ghost cs = comps@;
    assert(components == Some(comps));
    assert((match components { Some(c) => Some(c@), None => None }) == Some(cs));
    let ghost clauses = reduced.clauses@;
    let n = reduced.num_vars as usize;
    let mut claimed_by: Vec<Option<usize>> = Vec::new();
    let mut fill: usize = 0;
    while fill < n
        invariant
            fill <= n,
            claimed_by@.len() == fill,
            forall|i: int| 0 <= i < fill ==> #[trigger] claimed_by@[i] is None,
        decreases n - fill,
    {
        claimed_by.push(None);
        fill = fill + 1;
    }
    let mut index: usize = 0;
    while index < comps.len()
        invariant
            cs == comps@,
            components == Some(comps),
            f == *reduced,
            clauses == reduced.clauses@,
            n == reduced.num_vars,
            vtree_leaves == reduced.num_vars,
            index <= cs.len(),
            claimed_by@.len() == n,
            forall|k: int| 0 <= k < index ==> #[trigger] component_fits(f, cs, k),
            forall|i: int| 0 <= i < n ==> (#[trigger] claimed_by@[i] matches Some(k2)
                ==> 0 <= k2 < index && mentions(clauses, cs[k2 as int].clause_indices@, (i + 1) as u32)),
            forall|i: int| 0 <= i < n && claimed_before(f, cs, index as int, (i + 1) as u32)
                ==> #[trigger] claimed_by@[i] is Some,
        decreases cs.len() - index,
    {
        let cv = &comps[index];
        let ghost cur = cv.clause_indices@;
        let mut q: usize = 0;
        while q < cv.clause_indices.len()
            invariant
                cs == comps@,
                components == Some(comps),
                f == *reduced,
                clauses == reduced.clauses@,
                n == reduced.num_vars,
                vtree_leaves == reduced.num_vars,
                index < cs.len(),
                *cv == cs[index as int],
                cur == cv.clause_indices@,
                q <= cur.len(),
                claimed_by@.len() == n,
                forall|k: int| 0 <= k < index ==> #[trigger] component_fits(f, cs, k),
                forall|q2: int| 0 <= q2 < q ==> #[trigger] clause_fits(f, cs, index as int, q2),
                forall|i: int| 0 <= i < n ==> (#[trigger] claimed_by@[i] matches Some(k2)
                    ==> (0 <= k2 < index && mentions(clauses, cs[k2 as int].clause_indices@, (i + 1) as u32))
                        || (k2 == index && mentions(clauses, cur.take(q as int), (i + 1) as u32))),
                forall|i: int| 0 <= i < n && claimed_before(f, cs, index as int, (i + 1) as u32)
                    ==> (#[trigger] claimed_by@[i] matches Some(k2) && k2 < index),
                forall|i: int| 0 <= i < n && mentions(clauses, cur.take(q as int), (i + 1) as u32)
                    ==> #[trigger] claimed_by@[i] is Some,
            decreases cur.len() - q,
        {
            let ci = cv.clause_indices[q];
            if ci >= reduced.clauses.len() {
                let mut m = String::from_str("component ");
                m.append(decimal_string(index as u64).as_str());
                m.append(" claims clause ");
                m.append(decimal_string(ci as u64).as_str());
                m.append(" but the formula has ");
                m.append(decimal_string(reduced.clauses.len() as u64).as_str());
                m.append(" clauses; the build does not belong to this formula");
                proof {
                    assert(!clause_fits(f, cs, index as int, q as int));
                    assert(first_bad_clause(f, cs, index as int) == q) by {
                        let w = first_bad_clause(f, cs, index as int);
                        if w < q {
                            assert(clause_fits(f, cs, index as int, w));
                        }
                        if w > q {
                            assert(clause_fits(f, cs, index as int, q as int));
                        }
                    }
                    assert(!component_fits(f, cs, index as int));
                lemma_unfit_refused(vtree_leaves, f, cs, index as int);
                    assert(first_bad_component(f, cs) == index) by {
                        let w = first_bad_component(f, cs);
                        if w < index {
                            assert(component_fits(f, cs, w));
                        }
                        if w > index {
                            assert(component_fits(f, cs, index as int));
                        }
                    }
                }
                return Err(VitriError::mismatch(m.as_str()));
            }
            let lits = &reduced.clauses[ci].literals;
            let mut j: usize = 0;
            while j < lits.len()
                invariant
                    cs == comps@,
                    components == Some(comps),
                    f == *reduced,
                    clauses == reduced.clauses@,
                    n == reduced.num_vars,
                    vtree_leaves == reduced.num_vars,
                    index < cs.len(),
                    *cv == cs[index as int],
                    cur == cv.clause_indices@,
                    q < cur.len(),
                    ci == cur[q as int],
                    ci < clauses.len(),
                    *lits == clauses[ci as int].literals,
                    j <= lits@.len(),
                    claimed_by@.len() == n,
                    forall|k: int| 0 <= k < index ==> #[trigger] component_fits(f, cs, k),
                    forall|q2: int| 0 <= q2 < q ==> #[trigger] clause_fits(f, cs, index as int, q2),
                    forall|j2: int| 0 <= j2 < j ==> #[trigger] literal_fits(f, cs, index as int, q as int, j2),
                    forall|i: int| 0 <= i < n ==> (#[trigger] claimed_by@[i] matches Some(k2)
                        ==> (0 <= k2 < index && mentions(clauses, cs[k2 as int].clause_indices@, (i + 1) as u32))
                            || (k2 == index && (mentions(clauses, cur.take(q as int), (i + 1) as u32)
                                || exists|jj: int| 0 <= jj < j && lits@[jj].var.number() == (i + 1) as u32))),
                    forall|i: int| 0 <= i < n && claimed_before(f, cs, index as int, (i + 1) as u32)
                        ==> (#[trigger] claimed_by@[i] matches Some(k2) && k2 < index),
                    forall|i: int| 0 <= i < n && (mentions(clauses, cur.take(q as int), (i + 1) as u32)
                        || exists|jj: int| 0 <= jj < j && lits@[jj].var.number() == (i + 1) as u32)
                        ==> #[trigger] claimed_by@[i] is Some,
                decreases lits@.len() - j,
            {
                let var = lits[j].var;
                let vn = var.get();
                if vn > reduced.num_vars {
                    let mut m = String::from_str("clause ");
                    m.append(decimal_string(ci as u64).as_str());
                    m.append(" names variable ");
                    m.append(signed_string(var.to_dimacs() as i64).as_str());
                    m.append(" but the formula declares ");
                    m.append(decimal_string(reduced.num_vars as u64).as_str());
                    m.append(" variables");
                    proof {
                        assert(claimed_var(f, cs[index as int], q as int, j as int) == vn);
                        assert(!literal_fits(f, cs, index as int, q as int, j as int));
                        assert(first_bad_literal(f, cs, index as int, q as int) == j) by {
                            let w = first_bad_literal(f, cs, index as int, q as int);
                            if w < j {
                                assert(literal_fits(f, cs, index as int, q as int, w));
                            }
                            if w > j {
                                assert(literal_fits(f, cs, index as int, q as int, j as int));
                            }
                        }
                        assert(!clause_fits(f, cs, index as int, q as int));
                        assert(first_bad_clause(f, cs, index as int) == q) by {
                            let w = first_bad_clause(f, cs, index as int);
                            if w < q {
                                assert(clause_fits(f, cs, index as int, w));
                            }
                            if w > q {
                                assert(clause_fits(f, cs, index as int, q as int));
                            }
                        }
                        assert(!component_fits(f, cs, index as int));
                lemma_unfit_refused(vtree_leaves, f, cs, index as int);
                        assert(first_bad_component(f, cs) == index) by {
                            let w = first_bad_component(f, cs);
                            if w < index {
                                assert(component_fits(f, cs, w));
                            }
                            if w > index {
                                assert(component_fits(f, cs, index as int));
                            }
                        }
                    }
                    return Err(VitriError::mismatch(m.as_str()));
                }
                let slot = (vn - 1) as usize;
                match claimed_by[slot] {
                    Some(other) => {
                        if other != index {
                            let mut m = String::from_str("components ");
                            m.append(decimal_string(other as u64).as_str());
                            m.append(" and ");
                            m.append(decimal_string(index as u64).as_str());
                            m.append(" both claim variable ");
                            m.append(signed_string(var.to_dimacs() as i64).as_str());
                            m.append("; the build does not belong to this formula");
                            proof {
                                assert((slot + 1) as u32 == vn);
                                assert(claimed_by@[slot as int] matches Some(k2) && k2 == other);
                                assert(mentions(clauses, cs[other as int].clause_indices@, vn));
                                assert(claimed_before(f, cs, index as int, vn));
                                assert(claimed_var(f, cs[index as int], q as int, j as int) == vn);
                                assert(!literal_fits(f, cs, index as int, q as int, j as int));
                                assert(first_bad_literal(f, cs, index as int, q as int) == j) by {
                                    let w = first_bad_literal(f, cs, index as int, q as int);
                                    if w < j {
                                        assert(literal_fits(f, cs, index as int, q as int, w));
                                    }
                                    if w > j {
                                        assert(literal_fits(f, cs, index as int, q as int, j as int));
                                    }
                                }
                                assert(!clause_fits(f, cs, index as int, q as int));
                                assert(first_bad_clause(f, cs, index as int) == q) by {
                                    let w = first_bad_clause(f, cs, index as int);
                                    if w < q {
                                        assert(clause_fits(f, cs, index as int, w));
                                    }
                                    if w > q {
                                        assert(clause_fits(f, cs, index as int, q as int));
                                    }
                                }
                                assert(!component_fits(f, cs, index as int));
                lemma_unfit_refused(vtree_leaves, f, cs, index as int);
                                assert(first_bad_component(f, cs) == index) by {
                                    let w = first_bad_component(f, cs);
                                    if w < index {
                                        assert(component_fits(f, cs, w));
                                    }
                                    if w > index {
                                        assert(component_fits(f, cs, index as int));
                                    }
                                }
                                let e = earlier_claimer(f, cs, index as int, vn);
                                lemma_single_claimer(f, cs, index as int, vn, e, other as int);
                            }
                            return Err(VitriError::mismatch(m.as_str()));
                        }
                    },
                    None => {},
                }
                let ghost before = claimed_by@;
                claimed_by.set(slot, Some(index));
                proof {
                    assert((slot + 1) as u32 == vn);
                    assert(!claimed_before(f, cs, index as int, vn));
                    assert(claimed_var(f, cs[index as int], q as int, j as int) == vn);
                    assert(literal_fits(f, cs, index as int, q as int, j as int));
                    assert(lits@[j as int].var.number() == vn);
                }
                j = j + 1;
            }
            proof {
                let t = cur.take(q as int);
                let t1 = cur.take(q as int + 1);
                assert forall|x: u32| #[trigger] mentions(clauses, t1, x) <==> (mentions(clauses, t, x)
                    || exists|jj: int| 0 <= jj < lits@.len() && lits@[jj].var.number() == x) by {
                    if mentions(clauses, t, x) {
                        let (qq, jj) = choose|qq: int, jj: int|
                            0 <= qq < t.len() && 0 <= jj < clauses[t[qq] as int].literals.len()
                                && #[trigger] clauses[t[qq] as int].literals[jj].var.number() == x;
                        assert(t1[qq] == t[qq]);
                    }
                    if exists|jj: int| 0 <= jj < lits@.len() && lits@[jj].var.number() == x {
                        let jj = choose|jj: int| 0 <= jj < lits@.len() && lits@[jj].var.number() == x;
                        assert(t1[q as int] == cur[q as int]);
                        assert(clauses[t1[q as int] as int].literals[jj].var.number() == x);
                    }
                    if mentions(clauses, t1, x) {
                        let (qq, jj) = choose|qq: int, jj: int|
                            0 <= qq < t1.len() && 0 <= jj < clauses[t1[qq] as int].literals.len()
                                && #[trigger] clauses[t1[qq] as int].literals[jj].var.number() == x;
                        if qq < q {
                            assert(t[qq] == t1[qq]);
                            assert(clauses[t[qq] as int].literals[jj].var.number() == x);
                        } else {
                            assert(lits@[jj].var.number() == x);
                        }
                    }
                }
                assert(clause_fits(f, cs, index as int, q as int));
            }
            q = q + 1;
        }
        proof {
            assert(cur.take(cur.len() as int) == cur);
            assert forall|k: int| 0 <= k < cur.len() implies (#[trigger] cur[k]) < clauses.len() by {
                assert(clause_fits(f, cs, index as int, k));
            }
        }
        let cut = mentioned_numbers(&reduced.clauses, cv.clause_indices.as_slice());
        proof {
            assert(canonical(cut@) && forall|x: u32| #[trigger] cut@.contains(x) <==> mentions(clauses, cur, x));
            let chosen = cut_vars(f, cs[index as int]);
            lemma_canonical_unique(chosen, cut@);
            assert(cut_vars(f, cs[index as int]) == cut@);
        }
        if cv.vtree_leaves as u64 != cut.len() as u64 {
            let mut m = String::from_str("component ");
            m.append(decimal_string(index as u64).as_str());
            m.append(" vtree has ");
            m.append(decimal_string(cv.vtree_leaves as u64).as_str());
            m.append(" leaves but its CNF has ");
            m.append(decimal_string(cut.len() as u64).as_str());
            m.append(" variables; the build does not belong to this formula");
            proof {
                assert(!component_fits(f, cs, index as int));
                lemma_unfit_refused(vtree_leaves, f, cs, index as int);
                assert(first_bad_component(f, cs) == index) by {
                    let w = first_bad_component(f, cs);
                    if w < index {
                        assert(component_fits(f, cs, w));
                    }
                    if w > index {
                        assert(component_fits(f, cs, index as int));
                    }
                }
            }
            return Err(VitriError::mismatch(m.as_str()));
        }
        let named = &cv.local_to_outer;
        let ghost nums = numbers(named@);
        let mut i: usize = 0;
        let mut differs: Option<usize> = None;
        while i < named.len() && i < cut.len()
            invariant_except_break
                differs is None,
            invariant
                i <= named@.len(),
                i <= cut@.len(),
                nums == numbers(named@),
                forall|i2: int| 0 <= i2 < i ==> #[trigger] nums[i2] == cut@[i2],
            ensures
                differs matches Some(d) ==> d == i && d < named@.len() && d < cut@.len() && nums[d as int] != cut@[d as int],
                differs is None ==> !(i < named@.len() && i < cut@.len()),
            decreases named@.len() - i,
        {
            if named[i].get() != cut[i] {
                differs = Some(i);
                break;
            }
            i = i + 1;
        }
        let ghost differs_at = differs;
        if differs.is_some() || named.len() != cut.len() {
            let mut m = String::from_str("component ");
            m.append(decimal_string(index as u64).as_str());
            m.append("'s local-to-outer map is not the numbering its clauses give (");
            match differs {
                Some(local) => {
                    m.append("local ");
                    m.append(signed_string((((local + 1) as u32) as i32) as i64).as_str());
                    m.append(" is named as variable ");
                    m.append(signed_string(named[local].to_dimacs() as i64).as_str());
                    m.append(" and the clauses put variable ");
                    m.append(signed_string((cut[local] as i32) as i64).as_str());
                    m.append(" there");
                },
                None => {
                    m.append("the map names ");
                    m.append(decimal_string(named.len() as u64).as_str());
                    m.append(" variables and the clauses cut out ");
                    m.append(decimal_string(cut.len() as u64).as_str());
                },
            }
            m.append("); the build does not belong to this formula");
            proof {
                match differs_at {
                    Some(d) => {
                        assert(nums[d as int] != cut@[d as int]);
                        assert(first_difference(nums, cut@) == Some(d as int)) by {
                            let w = choose|w: int| 0 <= w < nums.len() && w < cut@.len() && nums[w] != cut@[w]
                                && forall|i2: int| 0 <= i2 < w ==> #[trigger] nums[i2] == cut@[i2];
                            if w < d {
                                assert(nums[w] == cut@[w]);
                            }
                            if w > d {
                                assert(nums[d as int] == cut@[d as int]);
                            }
                        }
                        assert(nums != cut@);
                    },
                    None => {
                        assert(nums.len() != cut@.len());
                        assert(first_difference(nums, cut@) is None) by {
                            if exists|w: int| 0 <= w < nums.len() && w < cut@.len() && nums[w] != cut@[w] {
                                let w = choose|w: int| 0 <= w < nums.len() && w < cut@.len() && nums[w] != cut@[w];
                                assert(nums[w] == cut@[w]);
                            }
                        }
                    },
                }
                assert(!component_fits(f, cs, index as int));
                lemma_unfit_refused(vtree_leaves, f, cs, index as int);
                assert(first_bad_component(f, cs) == index) by {
                    let w = first_bad_component(f, cs);
                    if w < index {
                        assert(component_fits(f, cs, w));
                    }
                    if w > index {
                        assert(component_fits(f, cs, index as int));
                    }
                }
            }
            return Err(VitriError::mismatch(m.as_str()));
        }
        proof {
            assert(nums =~= cut@);
            assert(component_fits(f, cs, index as int));
            assert forall|x: int| 0 <= x < n && claimed_before(f, cs, index + 1, (x + 1) as u32)
                implies #[trigger] claimed_by@[x] is Some by {
                let k2 = choose|k2: int| 0 <= k2 < index + 1 && #[trigger] mentions(clauses, cs[k2].clause_indices@, (x + 1) as u32);
                if k2 < index {
                    assert(claimed_before(f, cs, index as int, (x + 1) as u32));
                }
            }
        }
        index = index + 1;
    }
    Ok(())
}

} // verus!
