//! The projection show set — which variables a count is taken over — and the
//! per-formula mask derived from it.
//!
//! [`ShowSet`] is the durable thing: it is parsed from `c p show`, written back
//! to `c p show`, and carried across every variable renumbering preprocessing
//! performs. It is keyed by a [`Space`] marker so that a set expressed over one
//! formula's variables cannot be handed to a consumer expecting another's.
//!
//! [`ShowMask`] is the derived view: `mask[variable]`, over a formula named at
//! the point of derivation, derived from a set plus that formula's variable
//! count ([`ShowSet::mask`]) or restricted through a local→global
//! correspondence ([`ShowMask::restrict`]).
//!
//! A [`ShowSet`] holds variable numbers as DIMACS writes them, ascending and
//! deduplicated; the constructors are what establish that, and every reader
//! may rely on it.

use std::marker::PhantomData;

use super::space::{Local, Original, Reduced, Space};
use super::VarId;
use crate::error::VitriError;
use vstd::prelude::*;

verus! {

/// `s` strictly ascends.
pub open spec fn ascending(s: Seq<u32>) -> bool {
    forall|i: int, j: int| 0 <= i < j < s.len() ==> #[trigger] s[i] < #[trigger] s[j]
}

/// `s` is a canonical set of variable numbers: strictly ascending, and no `0`,
/// which names no variable.
pub open spec fn canonical(s: Seq<u32>) -> bool {
    ascending(s) && !s.contains(0)
}

/// A canonical set lists each of its members once.
pub proof fn lemma_canonical_no_duplicates(s: Seq<u32>)
    requires
        canonical(s),
    ensures
        s.no_duplicates(),
{
    assert forall|i: int, j: int| 0 <= i < s.len() && 0 <= j < s.len() && i != j implies s[i] != s[j] by {
        if i < j {
            assert(s[i] < s[j]);
        } else {
            assert(s[j] < s[i]);
        }
    }
}

/// Adding a variable a canonical set lacks and then taking it away gives the
/// set back: the sets `inserted` and `removed`, canonical and holding
/// `s` with `v` and `inserted` without `v`, are `s` itself.
pub proof fn lemma_insert_then_remove(s: Seq<u32>, v: u32, inserted: Seq<u32>, removed: Seq<u32>)
    requires
        canonical(s),
        !s.contains(v),
        canonical(inserted),
        forall|x: u32| #[trigger] inserted.contains(x) <==> (s.contains(x) || x == v),
        canonical(removed),
        forall|x: u32| #[trigger] removed.contains(x) <==> (inserted.contains(x) && x != v),
    ensures
        removed == s,
{
    assert forall|x: u32| #![trigger removed.contains(x)] #![trigger s.contains(x)] removed.contains(x) <==> s.contains(x) by {
        assert(inserted.contains(x) <==> (s.contains(x) || x == v));
    }
    lemma_canonical_unique(removed, s);
}

/// Where `v` is, or would go, in the strictly ascending `s`, and whether it
/// is there.
pub(crate) fn locate(s: &Vec<u32>, v: u32) -> (r: (usize, bool))
    requires
        ascending(s@),
    ensures
        r.0 <= s@.len(),
        forall|k: int| 0 <= k < r.0 ==> #[trigger] s@[k] < v,
        forall|k: int| r.0 <= k < s@.len() ==> v <= #[trigger] s@[k],
        r.1 == (r.0 < s@.len() && s@[r.0 as int] == v),
        r.1 == s@.contains(v),
{
    let mut lo: usize = 0;
    let mut hi: usize = s.len();
    while lo < hi
        invariant
            lo <= hi <= s@.len(),
            ascending(s@),
            forall|k: int| 0 <= k < lo ==> #[trigger] s@[k] < v,
            forall|k: int| hi <= k < s@.len() ==> v <= #[trigger] s@[k],
        decreases hi - lo,
    {
        let mid = lo + (hi - lo) / 2;
        if s[mid] < v {
            lo = mid + 1;
        } else {
            hi = mid;
        }
    }
    let found = lo < s.len() && s[lo] == v;
    proof {
        if s@.contains(v) {
            let k = choose|k: int| 0 <= k < s@.len() && s@[k] == v;
            if k > lo as int {
                assert(s@[lo as int] < s@[k]);
            }
        }
    }
    (lo, found)
}

/// Adds `v` to the strictly ascending `s` unless it is there already.
pub(crate) fn insert_sorted(s: &mut Vec<u32>, v: u32)
    requires
        ascending(old(s)@),
    ensures
        ascending(final(s)@),
        forall|x: u32| #[trigger] final(s)@.contains(x) <==> (old(s)@.contains(x) || x == v),
        old(s)@.contains(v) ==> final(s)@ == old(s)@,
        final(s)@.len() == old(s)@.len() + if old(s)@.contains(v) { 0int } else { 1int },
{
    let (at, found) = locate(s, v);
    if !found {
        let ghost before = s@;
        s.insert(at, v);
        proof {
            assert(s@ == before.insert(at as int, v));
            assert forall|i: int, j: int| 0 <= i < j < s@.len() implies #[trigger] s@[i] < #[trigger] s@[j] by {
                if j < at {
                } else if i > at {
                    assert(s@[i] == before[i - 1] && s@[j] == before[j - 1]);
                } else if i == at {
                    assert(s@[j] == before[j - 1]);
                } else if j == at {
                } else {
                    assert(s@[j] == before[j - 1]);
                    assert(before[i] < v);
                }
            }
            assert forall|x: u32| #[trigger] s@.contains(x) <==> (before.contains(x) || x == v) by {
                if s@.contains(x) {
                    let k = choose|k: int| 0 <= k < s@.len() && s@[k] == x;
                    if k < at {
                        assert(before[k] == x);
                    } else if k > at {
                        assert(before[k - 1] == x);
                    }
                }
                if before.contains(x) {
                    let k = choose|k: int| 0 <= k < before.len() && before[k] == x;
                    if k < at {
                        assert(s@[k] == x);
                    } else {
                        assert(s@[k + 1] == x);
                    }
                }
                if x == v {
                    assert(s@[at as int] == v);
                }
            }
        }
    }
}

/// A show set is its members: two canonical sets holding the same variables
/// are the same sequence, so no two spellings of one set exist.
pub proof fn lemma_canonical_unique(a: Seq<u32>, b: Seq<u32>)
    requires
        canonical(a),
        canonical(b),
        forall|x: u32| #![trigger a.contains(x)] #![trigger b.contains(x)] a.contains(x) <==> b.contains(x),
    ensures
        a == b,
    decreases a.len(),
{
    if a.len() == 0 {
        if b.len() > 0 {
            assert(b.contains(b[0]));
        }
        assert(a =~= b);
    } else {
        assert(a.contains(a[0]));
        assert(b.contains(a[0]));
        let k = choose|k: int| 0 <= k < b.len() && b[k] == a[0];
        assert(b.contains(b[0]));
        let m = choose|m: int| 0 <= m < a.len() && a[m] == b[0];
        if k > 0 {
            assert(b[0] < b[k]);
            if m > 0 {
                assert(a[0] < a[m]);
            }
        }
        assert(k == 0);
        let a2 = a.drop_first();
        let b2 = b.drop_first();
        assert forall|x: u32| #![trigger a2.contains(x)] #![trigger b2.contains(x)] a2.contains(x) <==> b2.contains(x) by {
            if a2.contains(x) {
                let i = choose|i: int| 0 <= i < a2.len() && a2[i] == x;
                assert(a[i + 1] == x);
                assert(a[0] < a[i + 1]);
                assert(b.contains(x));
                let j = choose|j: int| 0 <= j < b.len() && b[j] == x;
                assert(j != 0);
                assert(b2[j - 1] == x);
            }
            if b2.contains(x) {
                let i = choose|i: int| 0 <= i < b2.len() && b2[i] == x;
                assert(b[i + 1] == x);
                assert(b[0] < b[i + 1]);
                assert(a.contains(x));
                let j = choose|j: int| 0 <= j < a.len() && a[j] == x;
                assert(j != 0);
                assert(a2[j - 1] == x);
            }
        }
        assert(!a2.contains(0)) by {
            if a2.contains(0) {
                let i = choose|i: int| 0 <= i < a2.len() && a2[i] == 0;
                assert(a[i + 1] == 0);
            }
        }
        assert(!b2.contains(0)) by {
            if b2.contains(0) {
                let i = choose|i: int| 0 <= i < b2.len() && b2[i] == 0;
                assert(b[i + 1] == 0);
            }
        }
        lemma_canonical_unique(a2, b2);
        assert(a =~= b) by {
            assert forall|i: int| 0 <= i < a.len() implies a[i] == b[i] by {
                if i > 0 {
                    assert(a[i] == a2[i - 1]);
                    assert(b[i] == b2[i - 1]);
                }
            }
        }
    }
}

/// The variables a count is projected onto, in the space `S` names.
///
/// Ascending, deduplicated variable numbers. `S` is a compile-time marker only
/// — it costs nothing at runtime and appears in no written form.
#[derive(Debug, PartialEq, Eq)]
pub struct ShowSet<S: Space>(Vec<u32>, PhantomData<S>);

impl<S: Space> Clone for ShowSet<S> {
    fn clone(&self) -> (r: Self)
        ensures
            r@ == self@,
    {
        proof {
            use_type_invariant(self);
        }
        let mut ids: Vec<u32> = Vec::new();
        let mut i: usize = 0;
        while i < self.0.len()
            invariant
                i <= self.0@.len(),
                ids@ == self.0@.take(i as int),
            decreases self.0@.len() - i,
        {
            ids.push(self.0[i]);
            proof {
                assert(self.0@.take(i + 1) == self.0@.take(i as int).push(self.0@[i as int]));
            }
            i = i + 1;
        }
        proof {
            assert(self.0@.take(self.0@.len() as int) == self.0@);
        }
        ShowSet(ids, PhantomData)
    }
}

impl<S: Space> View for ShowSet<S> {
    type V = Seq<u32>;

    closed spec fn view(&self) -> Seq<u32> {
        self.0@
    }
}

impl<S: Space> ShowSet<S> {
    #[verifier::type_invariant]
    spec fn is_canonical(self) -> bool {
        canonical(self.0@)
    }

    /// The set that shows nothing. Distinct from "no show set at all", which
    /// callers spell `None`: `c p show 0` projects onto nothing, and a count
    /// over it is 1 or 0.
    pub fn empty() -> (r: Self)
        ensures
            r@ == Seq::<u32>::empty(),
            canonical(r@),
    {
        ShowSet(Vec::new(), PhantomData)
    }

    /// The set as a written artifact carries it — a `c p show` line, a record
    /// field, a manifest entry. THE place a written show set is checked.
    ///
    /// # Errors
    ///
    /// [`VitriError`] of kind `input` when an id is `0`, which terminates a
    /// `c p show` line rather than naming a variable.
    pub fn from_dimacs_ids(ids: &[u32]) -> (r: Result<Self, VitriError>)
        ensures
            match r {
                Ok(set) => !ids@.contains(0) && canonical(set@) && forall|x: u32| #[trigger] set@.contains(x)
                    <==> ids@.contains(x),
                Err(e) => ids@.contains(0) && e.spec_kind() == crate::error::ErrorKind::Input,
            },
            canonical(ids@) ==> (r matches Ok(set) && set@ == ids@),
    {
        let mut out: Vec<u32> = Vec::new();
        let mut i: usize = 0;
        while i < ids.len()
            invariant
                i <= ids@.len(),
                canonical(out@),
                forall|x: u32| #[trigger] out@.contains(x) <==> ids@.take(i as int).contains(x),
            decreases ids@.len() - i,
        {
            let v = ids[i];
            if v == 0 {
                proof {
                    assert(ids@[i as int] == 0);
                }
                return Err(
                    VitriError::input("0 is not a show variable (it terminates a `c p show` line)"),
                );
            }
            insert_sorted(&mut out, v);
            proof {
                assert(ids@.take(i + 1) == ids@.take(i as int).push(v));
                assert forall|x: u32| #[trigger] out@.contains(x) <==> ids@.take(i + 1).contains(x) by {
                    if x == v {
                        assert(ids@.take(i + 1)[i as int] == v);
                    }
                    if ids@.take(i + 1).contains(x) && x != v {
                        let k = choose|k: int| 0 <= k < i + 1 && #[trigger] ids@.take(i + 1)[k] == x;
                        assert(ids@.take(i as int)[k] == x);
                    }
                }
            }
            i = i + 1;
        }
        proof {
            assert(ids@.take(ids@.len() as int) == ids@);
            if canonical(ids@) {
                lemma_canonical_unique(out@, ids@);
            }
        }
        Ok(ShowSet(out, PhantomData))
    }

    /// The set over `vars`, in any order and with any repeats — canonicalized
    /// here.
    pub fn from_vars(vars: Vec<VarId>) -> (r: Self)
        ensures
            canonical(r@),
            forall|x: u32|
                #[trigger] r@.contains(x) <==> exists|k: int| 0 <= k < vars@.len() && vars@[k].number() == x,
            r@.len() == vars@.map_values(|v: VarId| v.number()).to_set().len(),
    {
        let mut out: Vec<u32> = Vec::new();
        let mut i: usize = 0;
        while i < vars.len()
            invariant
                i <= vars@.len(),
                canonical(out@),
                forall|x: u32|
                    #[trigger] out@.contains(x) <==> exists|k: int| 0 <= k < i && vars@[k].number() == x,
            decreases vars@.len() - i,
        {
            let v = vars[i].get();
            insert_sorted(&mut out, v);
            proof {
                assert forall|x: u32|
                    #[trigger] out@.contains(x) <==> exists|k: int| 0 <= k < i + 1 && vars@[k].number() == x by {
                    if x == v {
                        assert(vars@[i as int].number() == x);
                    }
                }
            }
            i = i + 1;
        }
        proof {
            let nums = vars@.map_values(|v: VarId| v.number());
            assert(out@.to_set() =~= nums.to_set()) by {
                assert forall|x: u32| out@.to_set().contains(x) <==> nums.to_set().contains(x) by {
                    if out@.contains(x) {
                        let k = choose|k: int| 0 <= k < vars@.len() && vars@[k].number() == x;
                        assert(nums[k] == x);
                    }
                    if nums.contains(x) {
                        let k = choose|k: int| 0 <= k < nums.len() && nums[k] == x;
                        assert(vars@[k].number() == x);
                    }
                }
            }
            lemma_canonical_no_duplicates(out@);
            out@.unique_seq_to_set();
        }
        ShowSet(out, PhantomData)
    }

    /// The set over zero-based variable indices: index `i` stands for
    /// variable `i + 1`.
    pub fn from_zero_based(indices: Vec<u32>) -> (r: Self)
        requires
            forall|k: int| 0 <= k < indices@.len() ==> #[trigger] indices@[k] < u32::MAX,
        ensures
            canonical(r@),
            forall|x: u32|
                #[trigger] r@.contains(x) <==> exists|k: int| 0 <= k < indices@.len() && indices@[k] + 1 == x,
    {
        let mut out: Vec<u32> = Vec::new();
        let mut i: usize = 0;
        while i < indices.len()
            invariant
                i <= indices@.len(),
                forall|k: int| 0 <= k < indices@.len() ==> #[trigger] indices@[k] < u32::MAX,
                canonical(out@),
                forall|x: u32|
                    #[trigger] out@.contains(x) <==> exists|k: int| 0 <= k < i && indices@[k] + 1 == x,
            decreases indices@.len() - i,
        {
            let v = indices[i] + 1;
            insert_sorted(&mut out, v);
            proof {
                assert forall|x: u32|
                    #[trigger] out@.contains(x) <==> exists|k: int| 0 <= k < i + 1 && indices@[k] + 1 == x by {
                    if x == v {
                        assert(indices@[i as int] + 1 == x);
                    }
                }
                if out@.contains(0) {
                    let k = choose|k: int| 0 <= k < i + 1 && indices@[k] + 1 == 0u32;
                }
            }
            i = i + 1;
        }
        ShowSet(out, PhantomData)
    }

    /// Whether `var` is shown.
    pub fn contains(&self, var: VarId) -> (r: bool)
        ensures
            r == self@.contains(var.number()),
    {
        proof {
            use_type_invariant(self);
        }
        let (_, found) = locate(&self.0, var.get());
        found
    }

    /// How many variables are shown.
    pub fn len(&self) -> (r: usize)
        ensures
            r == self@.len(),
            canonical(self@),
    {
        proof {
            use_type_invariant(self);
        }
        self.0.len()
    }

    /// Whether nothing is shown.
    pub fn is_empty(&self) -> (r: bool)
        ensures
            r == (self@.len() == 0),
    {
        self.0.len() == 0
    }

    /// The shown variables, ascending.
    pub fn iter_vars(&self) -> (r: Vec<VarId>)
        ensures
            r@.len() == self@.len(),
            forall|i: int| 0 <= i < r@.len() ==> #[trigger] r@[i].number() == self@[i],
    {
        proof {
            use_type_invariant(self);
        }
        let mut out: Vec<VarId> = Vec::new();
        let mut i: usize = 0;
        while i < self.0.len()
            invariant
                i <= self.0@.len(),
                canonical(self.0@),
                out@.len() == i,
                forall|k: int| 0 <= k < i ==> #[trigger] out@[k].number() == self.0@[k],
            decreases self.0@.len() - i,
        {
            let v = self.0[i];
            proof {
                if v == 0 {
                    assert(self.0@.contains(0));
                }
            }
            match VarId::new(v) {
                Some(var) => out.push(var),
                None => {},
            }
            i = i + 1;
        }
        out
    }

    /// The variable numbers, ascending — the array every emitted artifact
    /// carries, and what [`Self::from_dimacs_ids`] reads back.
    pub fn as_dimacs(&self) -> (r: &[u32])
        ensures
            r@ == self@,
            canonical(r@),
    {
        proof {
            use_type_invariant(self);
        }
        self.0.as_slice()
    }

    /// The mask over a formula of `num_vars` variables: `mask[variable]`.
    ///
    /// Ids the formula does not have are dropped rather than rejected, so
    /// masking a set against a narrower space yields the intersection.
    pub fn mask(&self, num_vars: u32) -> (r: ShowMask)
        ensures
            r@.len() == num_vars,
            forall|i: int| 0 <= i < num_vars ==> #[trigger] r@[i] == self@.contains((i + 1) as u32),
            count_set(r@) == self@.filter(|x: u32| x <= num_vars).len(),
            count_set(r@) <= self@.len(),
    {
        proof {
            use_type_invariant(self);
        }
        let n = num_vars as usize;
        let mut bits: Vec<bool> = Vec::new();
        let mut i: usize = 0;
        while i < n
            invariant
                i <= n,
                n == num_vars,
                bits@.len() == i,
                forall|k: int| 0 <= k < i ==> !#[trigger] bits@[k],
            decreases n - i,
        {
            bits.push(false);
            i = i + 1;
        }
        let mut j: usize = 0;
        while j < self.0.len()
            invariant
                j <= self.0@.len(),
                canonical(self.0@),
                n == num_vars,
                bits@.len() == n,
                forall|k: int| 0 <= k < n ==> #[trigger] bits@[k] == self.0@.take(j as int).contains((k + 1) as u32),
            decreases self.0@.len() - j,
        {
            let v = self.0[j];
            proof {
                if v == 0 {
                    assert(self.0@.contains(0));
                }
                assert(self.0@.take(j + 1) == self.0@.take(j as int).push(v));
            }
            let ghost before = bits@;
            if (v as usize) <= n {
                bits.set((v - 1) as usize, true);
            }
            proof {
                assert forall|k: int| 0 <= k < n implies #[trigger] bits@[k] == self.0@.take(j + 1).contains((k + 1) as u32) by {
                    assert(before[k] == self.0@.take(j as int).contains((k + 1) as u32));
                    if (k + 1) as u32 == v {
                        assert(self.0@.take(j + 1)[j as int] == v);
                    }
                    if self.0@.take(j + 1).contains((k + 1) as u32) && (k + 1) as u32 != v {
                        let q = choose|q: int| 0 <= q < j + 1 && #[trigger] self.0@.take(j + 1)[q] == (k + 1) as u32;
                        assert(self.0@.take(j as int)[q] == (k + 1) as u32);
                    }
                }
            }
            j = j + 1;
        }
        proof {
            assert(self.0@.take(self.0@.len() as int) == self.0@);
            lemma_mask_counts_members(self.0@, num_vars, bits@);
        }
        ShowMask(bits)
    }

    /// Add `var`, keeping the set canonical. Idempotent: adding a member
    /// changes nothing.
    pub fn insert(&mut self, var: VarId)
        ensures
            canonical(final(self)@),
            forall|x: u32| #[trigger] final(self)@.contains(x) <==> (old(self)@.contains(x) || x == var.number()),
            old(self)@.contains(var.number()) ==> final(self)@ == old(self)@,
            final(self)@.len() == old(self)@.len() + if old(self)@.contains(var.number()) { 0int } else { 1int },
    {
        proof {
            use_type_invariant(&*self);
        }
        let v = var.get();
        let mut ids = Vec::new();
        std::mem::swap(&mut ids, &mut self.0);
        insert_sorted(&mut ids, v);
        self.0 = ids;
    }

    /// Drop `var` from the set. Idempotent — dropping a non-member changes
    /// nothing — and the set stays canonical.
    pub fn remove(&mut self, var: VarId)
        ensures
            canonical(final(self)@),
            forall|x: u32| #[trigger] final(self)@.contains(x) <==> (old(self)@.contains(x) && x != var.number()),
            !old(self)@.contains(var.number()) ==> final(self)@ == old(self)@,
            final(self)@.len() == old(self)@.len() - if old(self)@.contains(var.number()) { 1int } else { 0int },
    {
        proof {
            use_type_invariant(&*self);
        }
        let v = var.get();
        let (at, found) = locate(&self.0, v);
        if found {
            let mut ids = Vec::new();
            std::mem::swap(&mut ids, &mut self.0);
            let ghost before = ids@;
            ids.remove(at);
            proof {
                assert(ids@ == before.remove(at as int));
                assert forall|i: int, j: int| 0 <= i < j < ids@.len() implies #[trigger] ids@[i] < #[trigger] ids@[j] by {
                    let i0 = if i < at { i } else { i + 1 };
                    let j0 = if j < at { j } else { j + 1 };
                    assert(ids@[i] == before[i0] && ids@[j] == before[j0]);
                }
                assert forall|x: u32| #[trigger] ids@.contains(x) <==> (before.contains(x) && x != v) by {
                    if ids@.contains(x) {
                        let k = choose|k: int| 0 <= k < ids@.len() && ids@[k] == x;
                        let k0 = if k < at { k } else { k + 1 };
                        assert(before[k0] == x);
                        if k0 != at {
                            if k0 < at {
                                assert(before[k0] < before[at as int]);
                            } else {
                                assert(before[at as int] < before[k0]);
                            }
                        }
                    }
                    if before.contains(x) && x != v {
                        let k = choose|k: int| 0 <= k < before.len() && before[k] == x;
                        if k < at {
                            assert(ids@[k] == x);
                        } else {
                            assert(k != at);
                            assert(ids@[k - 1] == x);
                        }
                    }
                }
            }
            self.0 = ids;
        }
    }
}

impl ShowSet<Original> {
    /// Read this set as one over the REDUCED space, for the paths where the two
    /// spaces coincide because nothing was renumbered.
    pub(crate) fn assume_reduced_identity(self) -> (r: ShowSet<Reduced>)
        ensures
            r@ == self@,
    {
        proof {
            use_type_invariant(&self);
        }
        ShowSet(self.0, PhantomData)
    }
}

/// How many entries of `bits` are set.
pub open spec fn count_set(bits: Seq<bool>) -> nat
    decreases bits.len(),
{
    if bits.len() == 0 {
        0
    } else {
        count_set(bits.drop_last()) + if bits.last() { 1nat } else { 0nat }
    }
}

/// A mask with no bit set counts nothing.
proof fn lemma_count_set_none(m: Seq<bool>)
    requires
        forall|i: int| 0 <= i < m.len() ==> !#[trigger] m[i],
    ensures
        count_set(m) == 0,
    decreases m.len(),
{
    if m.len() > 0 {
        lemma_count_set_none(m.drop_last());
    }
}

/// Setting one clear bit counts one more.
proof fn lemma_count_set_flip(m: Seq<bool>, k: int)
    requires
        0 <= k < m.len(),
        !m[k],
    ensures
        count_set(m.update(k, true)) == count_set(m) + 1,
    decreases m.len(),
{
    if k == m.len() - 1 {
        assert(m.update(k, true).drop_last() =~= m.drop_last());
    } else {
        lemma_count_set_flip(m.drop_last(), k);
        assert(m.update(k, true).drop_last() =~= m.drop_last().update(k, true));
    }
}

/// The mask a canonical set `s` gives a formula of `n` variables counts the
/// members of `s` up to `n`, and so never more than `s` has.
pub proof fn lemma_mask_counts_members(s: Seq<u32>, n: u32, m: Seq<bool>)
    requires
        canonical(s),
        m.len() == n,
        forall|i: int| 0 <= i < n ==> #[trigger] m[i] == s.contains((i + 1) as u32),
    ensures
        count_set(m) == s.filter(|x: u32| x <= n).len(),
        count_set(m) <= s.len(),
    decreases s.len(),
{
    let p = |x: u32| x <= n;
    s.lemma_filter_len(p);
    if s.len() == 0 {
        reveal(Seq::filter);
        lemma_count_set_none(m);
    } else {
        let t = s.drop_last();
        let a = s.last();
        assert(s =~= t.push(a));
        assert(canonical(t)) by {
            if t.contains(0) {
                let k = choose|k: int| 0 <= k < t.len() && t[k] == 0u32;
                assert(s[k] == 0);
            }
        }
        assert(a >= 1) by {
            assert(s[s.len() - 1] == a);
        }
        assert forall|x: u32| #[trigger] t.contains(x) ==> x < a by {
            if t.contains(x) {
                let k = choose|k: int| 0 <= k < t.len() && t[k] == x;
                assert(s[k] < s[s.len() - 1]);
            }
        }
        t.lemma_filter_len_push(p, a);
        let mt = if a <= n { m.update(a - 1, false) } else { m };
        assert forall|i: int| 0 <= i < n implies #[trigger] mt[i] == t.contains((i + 1) as u32) by {
            let x = (i + 1) as u32;
            assert(m[i] == s.contains(x));
            if x != a {
                if s.contains(x) {
                    let k = choose|k: int| 0 <= k < s.len() && s[k] == x;
                    assert(k < t.len());
                    assert(t[k] == x);
                }
                if t.contains(x) {
                    let k = choose|k: int| 0 <= k < t.len() && t[k] == x;
                    assert(s[k] == x);
                }
            }
        }
        lemma_mask_counts_members(t, n, mt);
        if a <= n {
            assert(m[a - 1] == s.contains(a)) by {
                assert(s[s.len() - 1] == a);
            }
            assert(m =~= mt.update(a - 1, true));
            lemma_count_set_flip(mt, a - 1);
        }
    }
}

/// A [`ShowSet`] resolved against one formula: `is_show(v)` for every variable
/// of it.
#[derive(Clone, Debug, PartialEq, Eq, Hash)]
pub struct ShowMask(Vec<bool>);

impl View for ShowMask {
    type V = Seq<bool>;

    closed spec fn view(&self) -> Seq<bool> {
        self.0@
    }
}

/// Whether `mask` shows the variable numbered `n`: one inside it, and marked.
pub open spec fn shows(mask: Seq<bool>, n: int) -> bool {
    1 <= n <= mask.len() && mask[n - 1]
}

impl ShowMask {
    /// Whether `var` is shown. A variable outside the masked formula is not.
    pub fn is_show(&self, var: VarId) -> (r: bool)
        ensures
            r == shows(self@, var.number() as int),
    {
        let i = var.idx();
        if i < self.0.len() {
            self.0[i]
        } else {
            false
        }
    }

    /// The mask as a `mask[variable]` slice, for the scoring walks that index
    /// it once per variable.
    pub fn as_slice(&self) -> (r: &[bool])
        ensures
            r@ == self@,
    {
        self.0.as_slice()
    }

    /// How many variables are shown.
    pub fn count(&self) -> (r: usize)
        ensures
            r == count_set(self@),
    {
        let mut c: usize = 0;
        let mut i: usize = 0;
        while i < self.0.len()
            invariant
                i <= self.0@.len(),
                c == count_set(self.0@.take(i as int)),
                c <= i,
            decreases self.0@.len() - i,
        {
            proof {
                assert(self.0@.take(i + 1).drop_last() == self.0@.take(i as int));
            }
            if self.0[i] {
                c = c + 1;
            }
            i = i + 1;
        }
        proof {
            assert(self.0@.take(self.0@.len() as int) == self.0@);
        }
        c
    }

    /// This mask read over a sub-formula: `local_to_global[i]` is the variable
    /// of the masked formula that the sub-formula's variable `i + 1` stands
    /// for.
    ///
    /// THE way a show set descends into a component, so the per-component CNF's
    /// `c p show` line and the mask its vtree selection scores cannot disagree
    /// about which local variables are shown.
    pub fn restrict(&self, local_to_global: &[VarId]) -> (r: ShowSet<Local>)
        requires
            local_to_global@.len() <= u32::MAX,
        ensures
            forall|x: u32|
                #[trigger] r@.contains(x) <==> (1 <= x <= local_to_global@.len() && shows(
                    self@,
                    local_to_global@[x - 1].number() as int,
                )),
    {
        let mut out: Vec<u32> = Vec::new();
        let mut i: usize = 0;
        while i < local_to_global.len()
            invariant
                i <= local_to_global@.len() <= u32::MAX,
                canonical(out@),
                forall|k: int| 0 <= k < out@.len() ==> #[trigger] out@[k] <= i,
                forall|x: u32|
                    #[trigger] out@.contains(x) <==> (1 <= x <= i && shows(
                        self@,
                        local_to_global@[x - 1].number() as int,
                    )),
            decreases local_to_global@.len() - i,
        {
            let shown = self.is_show(local_to_global[i]);
            if shown {
                let ghost before = out@;
                let v: u32 = (i + 1) as u32;
                out.push(v);
                proof {
                    assert forall|a: int, b: int| 0 <= a < b < out@.len() implies #[trigger] out@[a] < #[trigger] out@[b] by {
                        if b == before.len() {
                            assert(before[a] <= i);
                        }
                    }
                    assert forall|x: u32| #[trigger] out@.contains(x) <==> (1 <= x <= i + 1 && shows(
                        self@,
                        local_to_global@[x - 1].number() as int,
                    )) by {
                        if x == v {
                            assert(out@[before.len() as int] == v);
                            assert(v - 1 == i);
                        } else {
                            if out@.contains(x) {
                                let k = choose|k: int| 0 <= k < out@.len() && out@[k] == x;
                                assert(k < before.len());
                                assert(before[k] == x);
                                assert(before.contains(x));
                            }
                            if 1 <= x <= i + 1 && shows(self@, local_to_global@[x - 1].number() as int) {
                                assert(x <= i);
                                assert(before.contains(x));
                                let k = choose|k: int| 0 <= k < before.len() && before[k] == x;
                                assert(out@[k] == x);
                            }
                        }
                    }
                }
            } else {
                proof {
                    assert forall|x: u32| #[trigger] out@.contains(x) <==> (1 <= x <= i + 1 && shows(
                        self@,
                        local_to_global@[x - 1].number() as int,
                    )) by {
                        if out@.contains(x) {
                            let k = choose|k: int| 0 <= k < out@.len() && out@[k] == x;
                            assert(out@[k] <= i);
                        }
                    }
                }
            }
            i = i + 1;
        }
        ShowSet(out, PhantomData)
    }
}

} // verus!
