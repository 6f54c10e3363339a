//! What preprocessing hands back beside the reduced formula: the variable
//! correspondence it renumbered by.

pub mod arjun;

use std::marker::PhantomData;

use crate::cnf::Space;
use crate::cnf::dimacs::magnitude;
use vstd::prelude::*;

verus! {

/// No two mapped entries name one variable, and each names one of the first
/// `n`.
pub open spec fn map_injective(entries: Seq<Option<i32>>, n: int) -> bool {
    &&& forall|i: int|
        0 <= i < entries.len() && (#[trigger] entries[i]) is Some ==> 1 <= magnitude(entries[i]->Some_0 as int) <= n
    &&& forall|i: int, j: int|
        0 <= i < j < entries.len() && (#[trigger] entries[i]) is Some && (#[trigger] entries[j]) is Some
            ==> magnitude(entries[i]->Some_0 as int) != magnitude(entries[j]->Some_0 as int)
}

/// A variable correspondence from the space `From` to the space `To`: entry
/// `i` is the literal of `To` that variable `i + 1` of `From` became, or
/// `None` for a variable that did not survive.
#[derive(Debug)]
pub struct VarMap<From: Space, To: Space>(Vec<Option<i32>>, PhantomData<(From, To)>);

impl<From: Space, To: Space> View for VarMap<From, To> {
    type V = Seq<Option<i32>>;

    closed spec fn view(&self) -> Seq<Option<i32>> {
        self.0@
    }
}

impl<From: Space, To: Space> VarMap<From, To> {
    /// The correspondence whose entry `i` is `entries[i]`.
    pub fn from_entries(entries: Vec<Option<i32>>) -> (r: Self)
        ensures
            r@ == entries@,
    {
        VarMap(entries, PhantomData)
    }

    /// How many variables of `From` the map covers.
    pub fn len(&self) -> (r: usize)
        ensures
            r == self@.len(),
    {
        self.0.len()
    }

    /// The literal variable `i + 1` of `From` became, if any.
    pub fn entry(&self, i: usize) -> (r: Option<i32>)
        ensures
            r == if i < self@.len() {
                self@[i as int]
            } else {
                None
            },
    {
        if i < self.0.len() {
            self.0[i]
        } else {
            None
        }
    }

    /// Whether no two variables map onto one variable of `To`, and every
    /// mapped one lands among its first `num_vars`. A map that aliased two
    /// variables would still satisfy a count identity while making every model
    /// lifted back through it wrong.
    pub fn is_injective(&self, num_vars: u32) -> (r: bool)
        ensures
            r == map_injective(self@, num_vars as int),
    {
        let n = num_vars as usize;
        let mut seen: Vec<bool> = Vec::new();
        let mut k: usize = 0;
        while k < n
            invariant
                k <= n,
                n == num_vars,
                seen@.len() == k,
                forall|j: int| 0 <= j < k ==> !#[trigger] seen@[j],
            decreases n - k,
        {
            seen.push(false);
            k = k + 1;
        }
        let mut i: usize = 0;
        while i < self.0.len()
            invariant
                i <= self.0@.len(),
                n == num_vars,
                seen@.len() == n,
                map_injective(self.0@.take(i as int), n as int),
                forall|v: int|
                    1 <= v <= n ==> (#[trigger] seen@[v - 1] <==> exists|j: int|
                        0 <= j < i && self.0@[j] is Some && magnitude(self.0@[j]->Some_0 as int) == v),
            decreases self.0@.len() - i,
        {
            let ghost before = seen@;
            match self.0[i] {
                None => {
                    proof {
                        assert(self.0@.take(i + 1).drop_last() == self.0@.take(i as int));
                        assert forall|v: int| 1 <= v <= n implies (#[trigger] seen@[v - 1] <==> exists|j: int|
                            0 <= j < i + 1 && self.0@[j] is Some && magnitude(self.0@[j]->Some_0 as int) == v) by {
                            if exists|j: int| 0 <= j < i + 1 && self.0@[j] is Some && magnitude(self.0@[j]->Some_0 as int) == v {
                                let j = choose|j: int| 0 <= j < i + 1 && self.0@[j] is Some && magnitude(self.0@[j]->Some_0 as int) == v;
                                assert(j != i);
                            }
                        }
                        let ghost t = self.0@.take(i + 1);
                        assert forall|a: int, b: int|
                            0 <= a < b < t.len() && (#[trigger] t[a]) is Some && (#[trigger] t[b]) is Some
                                implies magnitude(t[a]->Some_0 as int) != magnitude(t[b]->Some_0 as int) by {
                            assert(b != i);
                            assert(self.0@.take(i as int)[a] == t[a]);
                            assert(self.0@.take(i as int)[b] == t[b]);
                        }
                        assert forall|a: int| 0 <= a < t.len() && (#[trigger] t[a]) is Some implies 1 <= magnitude(t[a]->Some_0 as int) <= n by {
                            assert(a != i);
                            assert(self.0@.take(i as int)[a] == t[a]);
                        }
                    }
                },
                Some(l) => {
                    let v: u64 = if l < 0 {
                        if l == i32::MIN {
                            2147483648
                        } else {
                            (-l) as u64
                        }
                    } else {
                        l as u64
                    };
                    let ghost t = self.0@.take(i + 1);
                    if v == 0 || v > n as u64 {
                        proof {
                            assert(t[i as int] == Some(l));
                        }
                        return false;
                    }
                    let slot = (v - 1) as usize;
                    if seen[slot] {
                        proof {
                            let j = choose|j: int| 0 <= j < i && self.0@[j] is Some && magnitude(self.0@[j]->Some_0 as int) == v;
                            assert(t[j] == self.0@[j]);
                            assert(t[i as int] == Some(l));
                        }
                        return false;
                    }
                    seen.set(slot, true);
                    proof {
                        assert(self.0@.take(i + 1).drop_last() == self.0@.take(i as int));
                        assert forall|w: int| 1 <= w <= n implies (#[trigger] seen@[w - 1] <==> exists|j: int|
                            0 <= j < i + 1 && self.0@[j] is Some && magnitude(self.0@[j]->Some_0 as int) == w) by {
                            if w == v {
                                assert(self.0@[i as int] == Some(l));
                            } else {
                                assert(seen@[w - 1] == before[w - 1]);
                                if exists|j: int| 0 <= j < i + 1 && self.0@[j] is Some && magnitude(self.0@[j]->Some_0 as int) == w {
                                    let j = choose|j: int| 0 <= j < i + 1 && self.0@[j] is Some && magnitude(self.0@[j]->Some_0 as int) == w;
                                    assert(j != i);
                                }
                            }
                        }
                        assert forall|a: int, b: int|
                            0 <= a < b < t.len() && (#[trigger] t[a]) is Some && (#[trigger] t[b]) is Some
                                implies magnitude(t[a]->Some_0 as int) != magnitude(t[b]->Some_0 as int) by {
                            if b == i {
                                assert(t[a] == self.0@[a]);
                                if magnitude(t[a]->Some_0 as int) == v {
                                    assert(before[v - 1]);
                                }
                            } else {
                                assert(self.0@.take(i as int)[a] == t[a]);
                                assert(self.0@.take(i as int)[b] == t[b]);
                            }
                        }
                        assert forall|a: int| 0 <= a < t.len() && (#[trigger] t[a]) is Some implies 1 <= magnitude(t[a]->Some_0 as int) <= n by {
                            if a != i {
                                assert(self.0@.take(i as int)[a] == t[a]);
                            }
                        }
                    }
                },
            }
            i = i + 1;
        }
        proof {
            assert(self.0@.take(self.0@.len() as int) == self.0@);
        }
        true
    }
}


impl<From: Space, To: Space> VarMap<From, To> {
    /// The correspondence that renumbers nothing: variable `i + 1` of `From`
    /// is variable `i + 1` of `To`, for each of `num_vars` variables.
    pub fn identity(num_vars: u32) -> (r: Self)
        requires
            num_vars <= i32::MAX,
        ensures
            r@.len() == num_vars,
            forall|i: int| 0 <= i < num_vars ==> #[trigger] r@[i] == Some((i + 1) as i32),
    {
        let mut v: Vec<Option<i32>> = Vec::new();
        let mut n: u32 = 0;
        while n < num_vars
            invariant
                n <= num_vars <= i32::MAX,
                v@.len() == n,
                forall|i: int| 0 <= i < n ==> #[trigger] v@[i] == Some((i + 1) as i32),
            decreases num_vars - n,
        {
            v.push(Some((n + 1) as i32));
            n = n + 1;
        }
        VarMap(v, PhantomData)
    }
}

/// What one variable of the original formula became in the reduced one.
#[derive(Clone, Copy, Debug, PartialEq, Eq, Structural)]
pub enum OriginalEntry {
    /// Fixed to this polarity in every model: a backbone literal.
    Fixed(bool),
    /// Free: no reduced model determines it.
    Free,
    /// The signed 1-based DIMACS literal of the reduced variable it became,
    /// directly or through the representative of its equivalence class.
    Literal(i32),
}

/// The original-to-reduced correspondence: entry `o` says what original
/// variable `o + 1` became, fully resolved, so nothing in it is a link to
/// follow.
#[derive(Debug)]
pub struct OriginalMap(Vec<OriginalEntry>);

impl View for OriginalMap {
    type V = Seq<OriginalEntry>;

    closed spec fn view(&self) -> Seq<OriginalEntry> {
        self.0@
    }
}

impl OriginalMap {
    /// The map whose entry `o` is `entries[o]`.
    pub fn from_entries(entries: Vec<OriginalEntry>) -> (r: Self)
        ensures
            r@ == entries@,
    {
        OriginalMap(entries)
    }

    /// The map over a formula nothing was eliminated from: original variable
    /// `o` is reduced variable `o`, for each of `num_vars` variables.
    pub fn identity(num_vars: u32) -> (r: Self)
        requires
            num_vars <= i32::MAX,
        ensures
            r@.len() == num_vars,
            forall|i: int| 0 <= i < num_vars ==> #[trigger] r@[i] == OriginalEntry::Literal((i + 1) as i32),
    {
        let mut v: Vec<OriginalEntry> = Vec::new();
        let mut n: u32 = 0;
        while n < num_vars
            invariant
                n <= num_vars <= i32::MAX,
                v@.len() == n,
                forall|i: int| 0 <= i < n ==> #[trigger] v@[i] == OriginalEntry::Literal((i + 1) as i32),
            decreases num_vars - n,
        {
            v.push(OriginalEntry::Literal((n + 1) as i32));
            n = n + 1;
        }
        OriginalMap(v)
    }

    /// How many original variables the map covers.
    pub fn len(&self) -> (r: usize)
        ensures
            r == self@.len(),
    {
        self.0.len()
    }

    /// What original variable `o + 1` became, for `o` below [`Self::len`].
    pub fn entry(&self, o: usize) -> (r: OriginalEntry)
        requires
            o < self@.len(),
        ensures
            r == self@[o as int],
    {
        self.0[o]
    }
}

} // verus!
