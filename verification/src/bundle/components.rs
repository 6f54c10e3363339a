//! The component manifest's promise: between them, the components' local
//! numberings and the free variables name every variable of the reduced
//! formula exactly once, and nothing else.

use crate::cnf::components::numbers;
use crate::cnf::VarId;
use vstd::prelude::*;

verus! {

/// The manifest's file name, at the bundle root.
pub const COMPONENTS_JSON_NAME: &'static str = "components.json";

/// The directory the per-component files are written into.
pub const COMPONENTS_DIR: &'static str = "components";

/// Format tag written into every component manifest; a consumer should
/// refuse a tag it does not know.
pub const COMPONENTS_FORMAT_TAG: &'static str = "vitri-components-v1";

/// Some component slot before `(c, j)`, in scan order (component by
/// component, each in its own order), names `v`.
pub open spec fn named_before(lists: Seq<Seq<u32>>, c: int, j: int, v: u32) -> bool {
    exists|c2: int, j2: int|
        0 <= c2 < lists.len() && 0 <= j2 < lists[c2].len() && (c2 < c || (c2 == c && j2 < j))
            && #[trigger] lists[c2][j2] == v
}

/// Some component slot names `v`.
pub open spec fn named_by_component(lists: Seq<Seq<u32>>, v: u32) -> bool {
    exists|c: int, j: int| 0 <= c < lists.len() && 0 <= j < lists[c].len() && #[trigger] lists[c][j] == v
}

/// Every slot before `(c, j)` names a variable among `1..=n`, and no two of
/// them name the same one.
pub open spec fn slots_fit_before(lists: Seq<Seq<u32>>, c: int, j: int, n: u32) -> bool {
    &&& forall|c1: int, j1: int|
        0 <= c1 < lists.len() && 0 <= j1 < lists[c1].len() && (c1 < c || (c1 == c && j1 < j))
            ==> 1 <= #[trigger] lists[c1][j1] <= n
    &&& forall|c1: int, j1: int, c2: int, j2: int|
        0 <= c1 < lists.len() && 0 <= j1 < lists[c1].len() && (c1 < c || (c1 == c && j1 < j))
            && 0 <= c2 < lists.len() && 0 <= j2 < lists[c2].len() && (c2 < c || (c2 == c && j2 < j))
            && #[trigger] lists[c1][j1] == #[trigger] lists[c2][j2] ==> c1 == c2 && j1 == j2
}

/// The components' numberings `lists` and the free variables `free` name
/// every variable among `1..=n` exactly once, and nothing outside it.
pub open spec fn covers_each_once(lists: Seq<Seq<u32>>, free: Seq<u32>, n: u32) -> bool {
    &&& slots_fit_before(lists, lists.len() as int, 0, n)
    &&& forall|k: int| 0 <= k < free.len() ==> 1 <= #[trigger] free[k] <= n
    &&& forall|c: int, j: int, k: int|
        0 <= c < lists.len() && 0 <= j < lists[c].len() && 0 <= k < free.len() ==> #[trigger] lists[c][j] != #[trigger] free[k]
    &&& forall|k1: int, k2: int| 0 <= k1 < free.len() && 0 <= k2 < free.len() && #[trigger] free[k1] == #[trigger] free[k2] ==> k1 == k2
    &&& forall|v: u32| 1 <= v <= n ==> named_by_component(lists, v) || #[trigger] free.contains(v)
}

/// Whether a component manifest names every variable of a whole vtree with
/// `whole_leaves` leaves exactly once: `component_vars[c]` is component `c`'s
/// local-to-reduced numbering, and `free_vars` the variables no component
/// holds. A variable twice, one out of range, or one missing each fail.
pub fn manifest_matches_vtree(component_vars: &[Vec<u32>], free_vars: &[u32], whole_leaves: u32) -> (r: bool)
    ensures
        r == covers_each_once(component_vars@.map_values(|v: Vec<u32>| v@), free_vars@, whole_leaves),
{
    let ghost lists = component_vars@.map_values(|v: Vec<u32>| v@);
    let n = whole_leaves as usize;
    let mut named: Vec<bool> = Vec::new();
    let mut fill: usize = 0;
    while fill < n
        invariant
            fill <= n,
            named@.len() == fill,
            forall|i: int| 0 <= i < fill ==> !#[trigger] named@[i],
        decreases n - fill,
    {
        named.push(false);
        fill = fill + 1;
    }
    let mut c: usize = 0;
    while c < component_vars.len()
        invariant
            lists == component_vars@.map_values(|v: Vec<u32>| v@),
            n == whole_leaves,
            c <= lists.len(),
            named@.len() == n,
            slots_fit_before(lists, c as int, 0, whole_leaves),
            forall|i: int| 0 <= i < n ==> (#[trigger] named@[i] <==> named_before(lists, c as int, 0, (i + 1) as u32)),
        decreases lists.len() - c,
    {
        let ids = &component_vars[c];
        assert(ids@ == lists[c as int]);
        let mut j: usize = 0;
        while j < ids.len()
            invariant
                lists == component_vars@.map_values(|v: Vec<u32>| v@),
                n == whole_leaves,
                c < lists.len(),
                ids@ == lists[c as int],
                j <= ids@.len(),
                named@.len() == n,
                slots_fit_before(lists, c as int, j as int, whole_leaves),
                forall|i: int| 0 <= i < n ==> (#[trigger] named@[i] <==> named_before(lists, c as int, j as int, (i + 1) as u32)),
            decreases ids@.len() - j,
        {
            let id = ids[j];
            if id == 0 || id > whole_leaves {
                proof {
                    assert(lists[c as int][j as int] == id);
                    assert(!slots_fit_before(lists, lists.len() as int, 0, whole_leaves));
                }
                return false;
            }
            let slot = (id - 1) as usize;
            if named[slot] {
                proof {
                    assert(((slot + 1) as u32) == id);
                    assert(named_before(lists, c as int, j as int, id));
                    let (c2, j2) = choose|c2: int, j2: int|
                        0 <= c2 < lists.len() && 0 <= j2 < lists[c2].len() && (c2 < c || (c2 == c && j2 < j))
                            && #[trigger] lists[c2][j2] == id;
                    assert(lists[c as int][j as int] == id);
                    assert(!slots_fit_before(lists, lists.len() as int, 0, whole_leaves));
                }
                return false;
            }
            let ghost before = named@;
            named.set(slot, true);
            proof {
                assert(((slot + 1) as u32) == id);
                assert(lists[c as int][j as int] == id);
                assert forall|i: int| 0 <= i < n implies (#[trigger] named@[i] <==> named_before(
                    lists,
                    c as int,
                    j + 1,
                    (i + 1) as u32,
                )) by {
                    if i == slot {
                        assert(named_before(lists, c as int, j + 1, id));
                    } else {
                        assert(before[i] == named@[i]);
                        if named_before(lists, c as int, j + 1, (i + 1) as u32) {
                            let (c2, j2) = choose|c2: int, j2: int|
                                0 <= c2 < lists.len() && 0 <= j2 < lists[c2].len() && (c2 < c || (c2 == c && j2 < j + 1))
                                    && #[trigger] lists[c2][j2] == (i + 1) as u32;
                            assert(!(c2 == c && j2 == j));
                            assert(named_before(lists, c as int, j as int, (i + 1) as u32));
                        }
                        if named_before(lists, c as int, j as int, (i + 1) as u32) {
                            let (c2, j2) = choose|c2: int, j2: int|
                                0 <= c2 < lists.len() && 0 <= j2 < lists[c2].len() && (c2 < c || (c2 == c && j2 < j))
                                    && #[trigger] lists[c2][j2] == (i + 1) as u32;
                            assert(lists[c2][j2] == (i + 1) as u32);
                        }
                    }
                }
                assert(slots_fit_before(lists, c as int, j + 1, whole_leaves)) by {
                    assert forall|c1: int, j1: int, c2: int, j2: int|
                        0 <= c1 < lists.len() && 0 <= j1 < lists[c1].len() && (c1 < c || (c1 == c && j1 < j + 1))
                            && 0 <= c2 < lists.len() && 0 <= j2 < lists[c2].len() && (c2 < c || (c2 == c && j2 < j + 1))
                            && #[trigger] lists[c1][j1] == #[trigger] lists[c2][j2] implies c1 == c2 && j1 == j2 by {
                        if c1 == c && j1 == j && !(c2 == c && j2 == j) {
                            assert(named_before(lists, c as int, j as int, id));
                            assert(before[slot as int]);
                        }
                        if c2 == c && j2 == j && !(c1 == c && j1 == j) {
                            assert(named_before(lists, c as int, j as int, id));
                            assert(before[slot as int]);
                        }
                    }
                }
            }
            j = j + 1;
        }
        proof {
            assert(slots_fit_before(lists, c + 1, 0, whole_leaves)) by {
                assert forall|c1: int, j1: int| 0 <= c1 < lists.len() && 0 <= j1 < lists[c1].len() && (c1 < c + 1 || (c1 == c + 1 && j1 < 0))
                    implies 1 <= #[trigger] lists[c1][j1] <= whole_leaves by {
                    if c1 == c {
                        assert(j1 < ids@.len());
                    }
                }
            }
            assert forall|i: int| 0 <= i < n implies (#[trigger] named@[i] <==> named_before(lists, c + 1, 0, (i + 1) as u32)) by {
                if named_before(lists, c + 1, 0, (i + 1) as u32) {
                    let (c2, j2) = choose|c2: int, j2: int|
                        0 <= c2 < lists.len() && 0 <= j2 < lists[c2].len() && (c2 < c + 1 || (c2 == c + 1 && j2 < 0))
                            && #[trigger] lists[c2][j2] == (i + 1) as u32;
                    assert(named_before(lists, c as int, ids@.len() as int, (i + 1) as u32));
                }
                if named_before(lists, c as int, ids@.len() as int, (i + 1) as u32) {
                    let (c2, j2) = choose|c2: int, j2: int|
                        0 <= c2 < lists.len() && 0 <= j2 < lists[c2].len() && (c2 < c || (c2 == c && j2 < ids@.len()))
                            && #[trigger] lists[c2][j2] == (i + 1) as u32;
                    assert(named_before(lists, c + 1, 0, (i + 1) as u32));
                }
            }
        }
        c = c + 1;
    }
    let mut k: usize = 0;
    while k < free_vars.len()
        invariant
            lists == component_vars@.map_values(|v: Vec<u32>| v@),
            n == whole_leaves,
            k <= free_vars@.len(),
            named@.len() == n,
            slots_fit_before(lists, lists.len() as int, 0, whole_leaves),
            forall|k1: int| 0 <= k1 < k ==> 1 <= #[trigger] free_vars@[k1] <= whole_leaves,
            forall|cc: int, jj: int, k1: int|
                0 <= cc < lists.len() && 0 <= jj < lists[cc].len() && 0 <= k1 < k ==> #[trigger] lists[cc][jj] != #[trigger] free_vars@[k1],
            forall|k1: int, k2: int| 0 <= k1 < k && 0 <= k2 < k && #[trigger] free_vars@[k1] == #[trigger] free_vars@[k2] ==> k1 == k2,
            forall|i: int| 0 <= i < n ==> (#[trigger] named@[i] <==> (named_before(lists, lists.len() as int, 0, (i + 1) as u32)
                || free_vars@.take(k as int).contains((i + 1) as u32))),
        decreases free_vars@.len() - k,
    {
        let id = free_vars[k];
        if id == 0 || id > whole_leaves {
            proof {
                assert(free_vars@[k as int] == id);
            }
            return false;
        }
        let slot = (id - 1) as usize;
        if named[slot] {
            proof {
                assert(((slot + 1) as u32) == id);
                if named_before(lists, lists.len() as int, 0, id) {
                    let (c2, j2) = choose|c2: int, j2: int|
                        0 <= c2 < lists.len() && 0 <= j2 < lists[c2].len() && (c2 < lists.len() || (c2 == lists.len() && j2 < 0))
                            && #[trigger] lists[c2][j2] == id;
                    assert(free_vars@[k as int] == id);
                } else {
                    assert(free_vars@.take(k as int).contains(id));
                    let k2 = choose|k2: int| 0 <= k2 < k && free_vars@.take(k as int)[k2] == id;
                    assert(free_vars@[k2] == id);
                    assert(free_vars@[k as int] == id);
                }
            }
            return false;
        }
        let ghost before = named@;
        named.set(slot, true);
        proof {
            assert(((slot + 1) as u32) == id);
            assert(free_vars@[k as int] == id);
            assert(free_vars@.take(k + 1) == free_vars@.take(k as int).push(id));
            assert forall|i: int| 0 <= i < n implies (#[trigger] named@[i] <==> (named_before(lists, lists.len() as int, 0, (i + 1) as u32)
                || free_vars@.take(k + 1).contains((i + 1) as u32))) by {
                let x = (i + 1) as u32;
                if i == slot {
                    assert(free_vars@.take(k + 1)[k as int] == id);
                } else {
                    assert(before[i] == named@[i]);
                    assert(x != id);
                    if free_vars@.take(k + 1).contains(x) {
                        let t1 = free_vars@.take(k + 1);
                        let w = choose|w: int| 0 <= w < t1.len() && #[trigger] t1[w] == x;
                        assert(w != k);
                        assert(free_vars@.take(k as int)[w] == x);
                    }
                    if free_vars@.take(k as int).contains(x) {
                        let t0 = free_vars@.take(k as int);
                        let w = choose|w: int| 0 <= w < t0.len() && #[trigger] t0[w] == x;
                        assert(free_vars@.take(k + 1)[w] == x);
                    }
                }
            }
            assert forall|cc: int, jj: int, k1: int|
                0 <= cc < lists.len() && 0 <= jj < lists[cc].len() && 0 <= k1 < k + 1 implies #[trigger] lists[cc][jj] != #[trigger] free_vars@[k1] by {
                if k1 == k && lists[cc][jj] == id {
                    assert(named_before(lists, lists.len() as int, 0, id));
                    assert(before[slot as int]);
                }
            }
            assert forall|k1: int, k2: int| 0 <= k1 < k + 1 && 0 <= k2 < k + 1 && #[trigger] free_vars@[k1] == #[trigger] free_vars@[k2] implies k1 == k2 by {
                if k1 == k && k2 < k {
                    assert(free_vars@.take(k as int)[k2] == id);
                    assert(free_vars@.take(k as int).contains(id));
                    assert(before[slot as int]);
                }
                if k2 == k && k1 < k {
                    assert(free_vars@.take(k as int)[k1] == id);
                    assert(free_vars@.take(k as int).contains(id));
                    assert(before[slot as int]);
                }
            }
        }
        k = k + 1;
    }
    proof {
        assert(free_vars@.take(free_vars@.len() as int) == free_vars@);
    }
    let mut i: usize = 0;
    while i < n
        invariant
            lists == component_vars@.map_values(|v: Vec<u32>| v@),
            n == whole_leaves,
            i <= n,
            named@.len() == n,
            forall|i2: int| 0 <= i2 < i ==> #[trigger] named@[i2],
            forall|i2: int| 0 <= i2 < n ==> (#[trigger] named@[i2] <==> (named_before(lists, lists.len() as int, 0, (i2 + 1) as u32)
                || free_vars@.contains((i2 + 1) as u32))),
        decreases n - i,
    {
        if !named[i] {
            proof {
                let v = (i + 1) as u32;
                if named_by_component(lists, v) {
                    let (c2, j2) = choose|c2: int, j2: int| 0 <= c2 < lists.len() && 0 <= j2 < lists[c2].len() && #[trigger] lists[c2][j2] == v;
                    assert(named_before(lists, lists.len() as int, 0, v));
                }
                assert(!covers_each_once(lists, free_vars@, whole_leaves));
            }
            return false;
        }
        i = i + 1;
    }
    proof {
        assert forall|v: u32| 1 <= v <= whole_leaves implies named_by_component(lists, v) || #[trigger] free_vars@.contains(v) by {
            let i2 = (v - 1) as int;
            assert(named@[i2]);
            assert((i2 + 1) as u32 == v);
            if named_before(lists, lists.len() as int, 0, v) {
                let (c2, j2) = choose|c2: int, j2: int|
                    0 <= c2 < lists.len() && 0 <= j2 < lists[c2].len() && (c2 < lists.len() || (c2 == lists.len() && j2 < 0))
                        && #[trigger] lists[c2][j2] == v;
                assert(lists[c2][j2] == v);
            }
        }
    }
    true
}

/// A manifest whose free variables are the ones its components leave
/// unclaimed passes the cover check whenever the components themselves name
/// only variables among `1..=n`, each at most once.
pub proof fn lemma_unclaimed_completes_cover(lists: Seq<Seq<u32>>, free: Seq<u32>, n: u32)
    requires
        slots_fit_before(lists, lists.len() as int, 0, n),
        forall|v: u32| #[trigger] free.contains(v) <==> (1 <= v <= n && !named_by_component(lists, v)),
        forall|i: int, j: int| 0 <= i < j < free.len() ==> #[trigger] free[i] < #[trigger] free[j],
    ensures
        covers_each_once(lists, free, n),
{
    assert forall|k: int| 0 <= k < free.len() implies 1 <= #[trigger] free[k] <= n by {
        assert(free.contains(free[k]));
    }
    assert forall|c: int, j: int, k: int|
        0 <= c < lists.len() && 0 <= j < lists[c].len() && 0 <= k < free.len() implies #[trigger] lists[c][j] != #[trigger] free[k] by {
        assert(free.contains(free[k]));
        if lists[c][j] == free[k] {
            assert(named_by_component(lists, free[k]));
        }
    }
    assert forall|k1: int, k2: int| 0 <= k1 < free.len() && 0 <= k2 < free.len() && #[trigger] free[k1] == #[trigger] free[k2] implies k1 == k2 by {
        if k1 < k2 {
            assert(free[k1] < free[k2]);
        } else if k2 < k1 {
            assert(free[k2] < free[k1]);
        }
    }
}

/// The variables among `1..=num_vars` that no component's numbering names,
/// ascending: the free variables a manifest lists beside its components.
pub fn unclaimed_vars(num_vars: u32, component_vars: &[Vec<u32>]) -> (r: Vec<u32>)
    ensures
        forall|v: u32| #[trigger] r@.contains(v) <==> (1 <= v <= num_vars && !named_by_component(
            component_vars@.map_values(|l: Vec<u32>| l@),
            v,
        )),
        forall|i: int, j: int| 0 <= i < j < r@.len() ==> #[trigger] r@[i] < #[trigger] r@[j],
{
    let ghost lists = component_vars@.map_values(|l: Vec<u32>| l@);
    let n = num_vars as usize;
    let mut claimed: Vec<bool> = Vec::new();
    let mut fill: usize = 0;
    while fill < n
        invariant
            fill <= n,
            claimed@.len() == fill,
            forall|i: int| 0 <= i < fill ==> !#[trigger] claimed@[i],
        decreases n - fill,
    {
        claimed.push(false);
        fill = fill + 1;
    }
    let mut c: usize = 0;
    while c < component_vars.len()
        invariant
            lists == component_vars@.map_values(|l: Vec<u32>| l@),
            n == num_vars,
            c <= lists.len(),
            claimed@.len() == n,
            forall|i: int| 0 <= i < n ==> (#[trigger] claimed@[i] <==> named_before(lists, c as int, 0, (i + 1) as u32)),
        decreases lists.len() - c,
    {
        let ids = &component_vars[c];
        assert(ids@ == lists[c as int]);
        let mut j: usize = 0;
        while j < ids.len()
            invariant
                lists == component_vars@.map_values(|l: Vec<u32>| l@),
                n == num_vars,
                c < lists.len(),
                ids@ == lists[c as int],
                j <= ids@.len(),
                claimed@.len() == n,
                forall|i: int| 0 <= i < n ==> (#[trigger] claimed@[i] <==> named_before(lists, c as int, j as int, (i + 1) as u32)),
            decreases ids@.len() - j,
        {
            let id = ids[j];
            let ghost before = claimed@;
            if 1 <= id && id <= num_vars {
                claimed.set((id - 1) as usize, true);
            }
            proof {
                assert(lists[c as int][j as int] == id);
                assert forall|i: int| 0 <= i < n implies (#[trigger] claimed@[i] <==> named_before(
                    lists,
                    c as int,
                    j + 1,
                    (i + 1) as u32,
                )) by {
                    let x = (i + 1) as u32;
                    if x == id {
                        assert(named_before(lists, c as int, j + 1, x));
                    } else {
                        assert(before[i] == claimed@[i]);
                        if named_before(lists, c as int, j + 1, x) {
                            let (c2, j2) = choose|c2: int, j2: int|
                                0 <= c2 < lists.len() && 0 <= j2 < lists[c2].len() && (c2 < c || (c2 == c && j2 < j + 1))
                                    && #[trigger] lists[c2][j2] == x;
                            assert(!(c2 == c && j2 == j));
                            assert(named_before(lists, c as int, j as int, x));
                        }
                        if named_before(lists, c as int, j as int, x) {
                            let (c2, j2) = choose|c2: int, j2: int|
                                0 <= c2 < lists.len() && 0 <= j2 < lists[c2].len() && (c2 < c || (c2 == c && j2 < j))
                                    && #[trigger] lists[c2][j2] == x;
                            assert(lists[c2][j2] == x);
                        }
                    }
                }
            }
            j = j + 1;
        }
        proof {
            assert forall|i: int| 0 <= i < n implies (#[trigger] claimed@[i] <==> named_before(lists, c + 1, 0, (i + 1) as u32)) by {
                let x = (i + 1) as u32;
                if named_before(lists, c + 1, 0, x) {
                    let (c2, j2) = choose|c2: int, j2: int|
                        0 <= c2 < lists.len() && 0 <= j2 < lists[c2].len() && (c2 < c + 1 || (c2 == c + 1 && j2 < 0))
                            && #[trigger] lists[c2][j2] == x;
                    assert(named_before(lists, c as int, ids@.len() as int, x));
                }
                if named_before(lists, c as int, ids@.len() as int, x) {
                    let (c2, j2) = choose|c2: int, j2: int|
                        0 <= c2 < lists.len() && 0 <= j2 < lists[c2].len() && (c2 < c || (c2 == c && j2 < ids@.len()))
                            && #[trigger] lists[c2][j2] == x;
                    assert(named_before(lists, c + 1, 0, x));
                }
            }
        }
        c = c + 1;
    }
    let mut out: Vec<u32> = Vec::new();
    let mut v: usize = 0;
    while v < n
        invariant
            lists == component_vars@.map_values(|l: Vec<u32>| l@),
            n == num_vars,
            v <= n,
            claimed@.len() == n,
            forall|i: int| 0 <= i < n ==> (#[trigger] claimed@[i] <==> named_before(lists, lists.len() as int, 0, (i + 1) as u32)),
            forall|x: u32| #[trigger] out@.contains(x) <==> (1 <= x <= v && !claimed@[x - 1]),
            forall|i: int, j: int| 0 <= i < j < out@.len() ==> #[trigger] out@[i] < #[trigger] out@[j],
            forall|i: int| 0 <= i < out@.len() ==> 1 <= #[trigger] out@[i] <= v,
        decreases n - v,
    {
        if !claimed[v] {
            let ghost before = out@;
            out.push((v + 1) as u32);
            proof {
                assert forall|x: u32| #[trigger] out@.contains(x) <==> (1 <= x <= v + 1 && !claimed@[x - 1]) by {
                    if x == v + 1 {
                        assert(out@[before.len() as int] == x);
                    } else if out@.contains(x) {
                        let k = choose|k: int| 0 <= k < out@.len() && out@[k] == x;
                        assert(k < before.len());
                        assert(before[k] == x);
                        assert(before.contains(x));
                    } else if 1 <= x <= v && !claimed@[x - 1] {
                        assert(before.contains(x));
                        let k = choose|k: int| 0 <= k < before.len() && before[k] == x;
                        assert(out@[k] == x);
                    }
                }
            }
        } else {
            proof {
                assert(claimed@[v as int]);
                assert forall|x: u32| #[trigger] out@.contains(x) <==> (1 <= x <= v + 1 && !claimed@[x - 1]) by {
                    if out@.contains(x) {
                        let k = choose|k: int| 0 <= k < out@.len() && out@[k] == x;
                        assert(1 <= out@[k] <= v);
                    }
                    if x == v + 1 {
                        assert(claimed@[x - 1]);
                    }
                }
            }
        }
        v = v + 1;
    }
    proof {
        assert forall|x: u32| #[trigger] out@.contains(x) <==> (1 <= x <= num_vars && !named_by_component(lists, x)) by {
            if 1 <= x <= num_vars {
                let i = (x - 1) as int;
                assert(claimed@[i] <==> named_before(lists, lists.len() as int, 0, x));
                if named_by_component(lists, x) {
                    let (c2, j2) = choose|c2: int, j2: int| 0 <= c2 < lists.len() && 0 <= j2 < lists[c2].len() && #[trigger] lists[c2][j2] == x;
                    assert(named_before(lists, lists.len() as int, 0, x));
                }
                if named_before(lists, lists.len() as int, 0, x) {
                    let (c2, j2) = choose|c2: int, j2: int|
                        0 <= c2 < lists.len() && 0 <= j2 < lists[c2].len() && (c2 < lists.len() || (c2 == lists.len() && j2 < 0))
                            && #[trigger] lists[c2][j2] == x;
                    assert(lists[c2][j2] == x);
                }
            }
        }
    }
    out
}

/// A component's local-to-reduced map as the manifest carries it, 1-based at
/// both ends: entry `local - 1` is the reduced DIMACS id local variable
/// `local` stands for.
pub fn local_to_reduced_dimacs(local_to_reduced: &[VarId]) -> (r: Vec<u32>)
    ensures
        r@ == numbers(local_to_reduced@),
{
    let mut out: Vec<u32> = Vec::new();
    let mut i: usize = 0;
    while i < local_to_reduced.len()
        invariant
            i <= local_to_reduced@.len(),
            out@ == numbers(local_to_reduced@.take(i as int)),
        decreases local_to_reduced@.len() - i,
    {
        out.push(local_to_reduced[i].get());
        proof {
            assert(local_to_reduced@.take(i + 1) =~= local_to_reduced@.take(i as int).push(local_to_reduced@[i as int]));
        }
        i = i + 1;
    }
    proof {
        assert(local_to_reduced@.take(local_to_reduced@.len() as int) =~= local_to_reduced@);
    }
    out
}

/// The identity numbering of `n` variables: `1..=n`.
pub open spec fn identity_numbering(n: u32) -> Seq<u32> {
    Seq::new(n as nat, |i: int| (i + 1) as u32)
}

/// The variable part of a component manifest for a formula of `num_vars`
/// variables. Unsplit (`parts` is `None`), the manifest has one entry, which
/// maps every variable to itself, and no free variable. Split, it has the
/// components' numberings as given and, as free variables, those none of them
/// names, ascending.
///
/// The manifest then names every variable once exactly when the numbering
/// does: always when unsplit, and when split exactly when the components'
/// numberings name variables among `1..=num_vars`, none twice.
pub fn manifest_vars(num_vars: u32, parts: Option<Vec<Vec<u32>>>) -> (r: (Vec<Vec<u32>>, Vec<u32>))
    ensures
        ({
            let lists = r.0@.map_values(|l: Vec<u32>| l@);
            match parts {
                None => {
                    &&& lists == seq![identity_numbering(num_vars)]
                    &&& r.1@.len() == 0
                    &&& covers_each_once(lists, r.1@, num_vars)
                },
                Some(ls) => {
                    &&& r.0@ == ls@
                    &&& forall|v: u32| #[trigger] r.1@.contains(v) <==> (1 <= v <= num_vars && !named_by_component(lists, v))
                    &&& forall|i: int, j: int| 0 <= i < j < r.1@.len() ==> #[trigger] r.1@[i] < #[trigger] r.1@[j]
                    &&& covers_each_once(lists, r.1@, num_vars) == slots_fit_before(lists, lists.len() as int, 0, num_vars)
                },
            }
        }),
{
    match parts {
        None => {
            let mut ids: Vec<u32> = Vec::new();
            let mut v: u32 = 0;
            while v < num_vars
                invariant
                    v <= num_vars,
                    ids@ == identity_numbering(v),
                decreases num_vars - v,
            {
                v = v + 1;
                ids.push(v);
                proof {
                    assert(ids@ =~= identity_numbering(v));
                }
            }
            let mut lists: Vec<Vec<u32>> = Vec::new();
            lists.push(ids);
            let free: Vec<u32> = Vec::new();
            proof {
                let ls = lists@.map_values(|l: Vec<u32>| l@);
                assert(ls =~= seq![identity_numbering(num_vars)]);
                let id = identity_numbering(num_vars);
                assert forall|v: u32| 1 <= v <= num_vars implies named_by_component(ls, v) || #[trigger] free@.contains(v) by {
                    assert(ls[0][v - 1] == v);
                }
                assert forall|c1: int, j1: int, c2: int, j2: int|
                    0 <= c1 < ls.len() && 0 <= j1 < ls[c1].len() && (c1 < ls.len() || (c1 == ls.len() && j1 < 0))
                        && 0 <= c2 < ls.len() && 0 <= j2 < ls[c2].len() && (c2 < ls.len() || (c2 == ls.len() && j2 < 0))
                        && #[trigger] ls[c1][j1] == #[trigger] ls[c2][j2] implies c1 == c2 && j1 == j2 by {
                    assert(ls[c1][j1] == j1 + 1);
                    assert(ls[c2][j2] == j2 + 1);
                }
            }
            (lists, free)
        },
        Some(ls) => {
            let free = unclaimed_vars(num_vars, ls.as_slice());
            proof {
                let lists = ls@.map_values(|l: Vec<u32>| l@);
                if slots_fit_before(lists, lists.len() as int, 0, num_vars) {
                    assert forall|k1: int, k2: int| 0 <= k1 < free@.len() && 0 <= k2 < free@.len() && #[trigger] free@[k1] == #[trigger] free@[k2] implies k1 == k2 by {
                        if k1 < k2 {
                            assert(free@[k1] < free@[k2]);
                        } else if k2 < k1 {
                            assert(free@[k2] < free@[k1]);
                        }
                    }
                    assert forall|k: int| 0 <= k < free@.len() implies 1 <= #[trigger] free@[k] <= num_vars by {
                        assert(free@.contains(free@[k]));
                    }
                    assert forall|c: int, j: int, k: int|
                        0 <= c < lists.len() && 0 <= j < lists[c].len() && 0 <= k < free@.len() implies #[trigger] lists[c][j] != #[trigger] free@[k] by {
                        assert(free@.contains(free@[k]));
                        if lists[c][j] == free@[k] {
                            assert(named_by_component(lists, free@[k]));
                        }
                    }
                    assert forall|v: u32| 1 <= v <= num_vars implies named_by_component(lists, v) || #[trigger] free@.contains(v) by {
                        if !named_by_component(lists, v) {
                            assert(free@.contains(v));
                        }
                    }
                }
            }
            (ls, free)
        },
    }
}

} // verus!
