//! Disjoint-set (union-find) with path splitting and union by rank.
//!
//! Path splitting (each node points to its grandparent during `find`) gives
//! amortized near-O(1) per operation without full path compression.
//! [`UnionFind::union`] uses union-by-rank, so the tree stays balanced and no
//! caller controls which root wins.

use vstd::arithmetic::power2::{lemma2_to64, lemma2_to64_rest, lemma_pow2_strictly_increases, lemma_pow2_unfold, pow2};
use vstd::prelude::*;
use vstd::set_lib::{lemma_int_range, lemma_len_subset, lemma_set_disjoint_lens, set_int_range};

verus! {

/// The representative of `x`: follow parent links while they climb in rank.
/// Under [`shape_ok`] every link climbs, so this is the root of `x`'s tree.
pub open spec fn root_in(parent: Seq<usize>, rank: Seq<u8>, x: int) -> int
    decreases 256 - rank[x],
{
    if 0 <= x < parent.len() && parent.len() == rank.len() && parent[x] != x
        && (parent[x] as int) < rank.len() && rank[x] < rank[parent[x] as int] {
        root_in(parent, rank, parent[x] as int)
    } else {
        x
    }
}

/// The forest shape: every link stays in range and climbs strictly in rank.
#[verifier::opaque]
pub open spec fn shape_ok(parent: Seq<usize>, rank: Seq<u8>) -> bool {
    &&& parent.len() == rank.len()
    &&& forall|x: int| 0 <= x < parent.len() ==> (#[trigger] parent[x] as int) < parent.len()
    &&& forall|x: int|
        0 <= x < parent.len() && parent[x] != x ==> #[trigger] rank[x] < rank[parent[x] as int]
}

/// The elements whose representative is `z`.
pub open spec fn class_of(parent: Seq<usize>, rank: Seq<u8>, z: int) -> Set<int> {
    Set::new(|y: int| 0 <= y < parent.len() && root_in(parent, rank, y) == z)
}

/// Union by rank's balance: a tree whose root has rank `k` has at least `2^k`
/// elements. It is what keeps every rank below 64.
#[verifier::opaque]
pub open spec fn sizes_ok(parent: Seq<usize>, rank: Seq<u8>) -> bool {
    forall|z: int|
        0 <= z < parent.len() && parent[z] == z ==> #[trigger] class_of(parent, rank, z).len()
            >= pow2(rank[z] as nat)
}

proof fn lemma_root_props(parent: Seq<usize>, rank: Seq<u8>, x: int)
    requires
        shape_ok(parent, rank),
        0 <= x < parent.len(),
    ensures
        parent.len() == rank.len(),
        (parent[x] as int) < parent.len(),
        0 <= root_in(parent, rank, x) < parent.len(),
        parent[root_in(parent, rank, x)] == root_in(parent, rank, x),
        parent[x] != x ==> root_in(parent, rank, x) == root_in(parent, rank, parent[x] as int),
        parent[x] == x ==> root_in(parent, rank, x) == x,
    decreases 256 - rank[x],
{
    reveal(shape_ok);
    reveal(sizes_ok);
    if parent[x] != x {
        assert(rank[x] < rank[parent[x] as int]);
        lemma_root_props(parent, rank, parent[x] as int);
    }
}

proof fn lemma_class_finite(parent: Seq<usize>, rank: Seq<u8>, z: int)
    ensures
        class_of(parent, rank, z).finite(),
        class_of(parent, rank, z).len() <= parent.len(),
{
    lemma_int_range(0, parent.len() as int);
    lemma_len_subset(class_of(parent, rank, z), set_int_range(0, parent.len() as int));
}

/// A rank that some tree's size pays for is below 64.
proof fn lemma_rank_small(parent: Seq<usize>, rank: Seq<u8>, z: int)
    requires
        shape_ok(parent, rank),
        sizes_ok(parent, rank),
        0 <= z < parent.len(),
        parent[z] == z,
        parent.len() <= usize::MAX,
    ensures
        rank[z] < 64,
{
    reveal(shape_ok);
    reveal(sizes_ok);
    lemma_class_finite(parent, rank, z);
    if rank[z] >= 64 {
        lemma2_to64();
        lemma2_to64_rest();
        if rank[z] > 64 {
            lemma_pow2_strictly_increases(64, rank[z] as nat);
        }
        assert(class_of(parent, rank, z).len() >= pow2(rank[z] as nat));
        assert(false);
    }
}

proof fn lemma_split_one(parent: Seq<usize>, rank: Seq<u8>, x: int, y: int)
    requires
        shape_ok(parent, rank),
        0 <= x < parent.len(),
        parent[x] != x,
        shape_ok(parent.update(x, parent[parent[x] as int]), rank),
        0 <= y < parent.len(),
    ensures
        root_in(parent.update(x, parent[parent[x] as int]), rank, y) == root_in(parent, rank, y),
    decreases 256 - rank[y],
{
    reveal(shape_ok);
    reveal(sizes_ok);
    let p2 = parent.update(x, parent[parent[x] as int]);
    let p = parent[x] as int;
    let gp = parent[p] as int;
    lemma_root_props(parent, rank, y);
    lemma_root_props(p2, rank, y);
    if parent[y] == y {
        assert(y != x);
    } else if y != x {
        lemma_split_one(parent, rank, x, parent[y] as int);
    } else {
        if gp != p {
            lemma_root_props(parent, rank, p);
            assert(rank[p] < rank[gp]);
        }
        lemma_split_one(parent, rank, x, gp);
        lemma_root_props(parent, rank, p);
    }
}

/// Path splitting: pointing `x` at its grandparent keeps the forest a forest
/// and changes no element's representative.
#[verifier::spinoff_prover]
#[verifier::rlimit(40)]
proof fn lemma_split(parent: Seq<usize>, rank: Seq<u8>, x: int)
    requires
        shape_ok(parent, rank),
        sizes_ok(parent, rank),
        0 <= x < parent.len(),
        parent[x] != x,
    ensures
        shape_ok(parent.update(x, parent[parent[x] as int]), rank),
        sizes_ok(parent.update(x, parent[parent[x] as int]), rank),
        forall|y: int|
            0 <= y < parent.len() ==> #[trigger] root_in(parent.update(x, parent[parent[x] as int]), rank, y)
                == root_in(parent, rank, y),
{
    reveal(shape_ok);
    reveal(sizes_ok);
    let p2 = parent.update(x, parent[parent[x] as int]);
    let p = parent[x] as int;
    let gp = parent[p] as int;
    if gp != p {
        assert(rank[p] < rank[gp]);
    }
    assert(rank[x] < rank[gp]);
    assert forall|y: int| 0 <= y < p2.len() && p2[y] != y implies #[trigger] rank[y] < rank[p2[y] as int] by {
        if y != x {
            assert(parent[y] != y);
        }
    }
    assert(shape_ok(p2, rank));
    assert forall|y: int| 0 <= y < parent.len() implies #[trigger] root_in(p2, rank, y) == root_in(parent, rank, y) by {
        lemma_split_one(parent, rank, x, y);
    }
    assert forall|z: int| 0 <= z < p2.len() && p2[z] == z implies #[trigger] class_of(p2, rank, z).len()
        >= pow2(rank[z] as nat) by {
        assert(z != x);
        assert(class_of(p2, rank, z) =~= class_of(parent, rank, z));
    }
}

proof fn lemma_link_one(parent: Seq<usize>, rank: Seq<u8>, rank2: Seq<u8>, c: int, t: int, y: int)
    requires
        shape_ok(parent, rank),
        0 <= c < parent.len(),
        0 <= t < parent.len(),
        c != t,
        parent[c] == c,
        parent[t] == t,
        shape_ok(parent.update(c, t as usize), rank2),
        0 <= y < parent.len(),
        rank2[c] < rank2[t],
    ensures
        root_in(parent.update(c, t as usize), rank2, y) == if root_in(parent, rank, y) == c {
            t
        } else {
            root_in(parent, rank, y)
        },
    decreases 256 - rank[y],
{
    reveal(shape_ok);
    reveal(sizes_ok);
    let p2 = parent.update(c, t as usize);
    lemma_root_props(parent, rank, y);
    lemma_root_props(p2, rank2, y);
    if y == c {
        lemma_root_props(p2, rank2, t);
    } else if parent[y] == y {
    } else {
        lemma_root_props(parent, rank, parent[y] as int);
        lemma_link_one(parent, rank, rank2, c, t, parent[y] as int);
    }
}

/// Linking root `c` under root `t`, with `t`'s rank raised or kept, keeps the
/// forest a forest and sends `c`'s whole tree to `t`.
proof fn lemma_link(parent: Seq<usize>, rank: Seq<u8>, rank2: Seq<u8>, c: int, t: int)
    requires
        shape_ok(parent, rank),
        sizes_ok(parent, rank),
        0 <= c < parent.len(),
        0 <= t < parent.len(),
        c != t,
        parent[c] == c,
        parent[t] == t,
        rank2.len() == rank.len(),
        forall|z: int| 0 <= z < rank.len() && z != t ==> rank2[z] == rank[z],
        rank2[t] == rank[t] || (rank2[t] == rank[t] + 1 && rank[t] == rank[c]),
        rank2[c] < rank2[t],
    ensures
        shape_ok(parent.update(c, t as usize), rank2),
        sizes_ok(parent.update(c, t as usize), rank2),
        forall|y: int|
            0 <= y < parent.len() ==> #[trigger] root_in(parent.update(c, t as usize), rank2, y) == if root_in(
                parent,
                rank,
                y,
            ) == c {
                t
            } else {
                root_in(parent, rank, y)
            },
{
    reveal(shape_ok);
    reveal(sizes_ok);
    let p2 = parent.update(c, t as usize);
    assert forall|y: int| 0 <= y < p2.len() && p2[y] != y implies #[trigger] rank2[y] < rank2[p2[y] as int] by {
        if y != c {
            assert(parent[y] != y);
            assert(y != t);
            assert(rank[y] < rank[parent[y] as int]);
        }
    }
    assert(shape_ok(p2, rank2));
    assert forall|y: int| 0 <= y < parent.len() implies #[trigger] root_in(p2, rank2, y) == if root_in(parent, rank, y) == c {
        t
    } else {
        root_in(parent, rank, y)
    } by {
        lemma_link_one(parent, rank, rank2, c, t, y);
    }
    assert forall|z: int| 0 <= z < p2.len() && p2[z] == z implies #[trigger] class_of(p2, rank2, z).len()
        >= pow2(rank2[z] as nat) by {
        assert(z != c);
        lemma_class_finite(parent, rank, z);
        lemma_class_finite(parent, rank, c);
        if z == t {
            let a = class_of(parent, rank, t);
            let b = class_of(parent, rank, c);
            assert(class_of(p2, rank2, z) =~= a + b);
            assert(a.disjoint(b));
            lemma_set_disjoint_lens(a, b);
            assert(a.len() >= pow2(rank[t] as nat));
            assert(b.len() >= pow2(rank[c] as nat));
            if rank2[t] != rank[t] {
                lemma_pow2_unfold(rank2[t] as nat);
            }
        } else {
            assert(class_of(p2, rank2, z) =~= class_of(parent, rank, z));
        }
    }
}

/// A disjoint-set forest over `0..n`.
pub(crate) struct UnionFind {
    parent: Vec<usize>,
    rank: Vec<u8>,
}

impl UnionFind {
    /// The forest is well formed: links climb in rank and every tree is at
    /// least as large as its root's rank promises.
    pub(crate) closed spec fn wf(&self) -> bool {
        &&& shape_ok(self.parent@, self.rank@)
        &&& sizes_ok(self.parent@, self.rank@)
    }

    /// How many elements the forest holds.
    pub(crate) closed spec fn size(&self) -> nat {
        self.parent@.len()
    }

    /// The representative of `x`'s set.
    pub(crate) closed spec fn root(&self, x: int) -> int {
        root_in(self.parent@, self.rank@, x)
    }

    /// Every representative lies in the forest and represents itself.
    pub(crate) proof fn lemma_root_range(&self, x: int)
        requires
            self.wf(),
            0 <= x < self.size(),
        ensures
            0 <= self.root(x) < self.size(),
            self.root(self.root(x)) == self.root(x),
    {
        lemma_root_props(self.parent@, self.rank@, x);
        lemma_root_props(self.parent@, self.rank@, self.root(x));
    }

    /// The forest of `n` singletons.
    pub(crate) fn new(n: usize) -> (r: Self)
        ensures
            r.wf(),
            r.size() == n,
            forall|x: int| 0 <= x < n ==> #[trigger] r.root(x) == x,
    {
        let mut parent: Vec<usize> = Vec::new();
        let mut rank: Vec<u8> = Vec::new();
        let mut i: usize = 0;
        while i < n
            invariant
                i <= n,
                parent.len() == i,
                rank.len() == i,
                forall|x: int| 0 <= x < i ==> parent[x] == x,
                forall|x: int| 0 <= x < i ==> rank[x] == 0,
            decreases n - i,
        {
            parent.push(i);
            rank.push(0);
            i = i + 1;
        }
        let r = UnionFind { parent, rank };
        reveal(shape_ok);
        reveal(sizes_ok);
        assert forall|x: int| 0 <= x < n implies #[trigger] r.root(x) == x by {
            assert(r.parent@[x] == x);
        }
        assert forall|z: int| 0 <= z < r.parent@.len() && r.parent@[z] == z implies #[trigger] class_of(
            r.parent@,
            r.rank@,
            z,
        ).len() >= pow2(r.rank@[z] as nat) by {
            lemma_class_finite(r.parent@, r.rank@, z);
            assert(class_of(r.parent@, r.rank@, z).contains(z));
            vstd::set_lib::lemma_set_empty_equivalency_len(class_of(r.parent@, r.rank@, z));
            lemma2_to64();
        }
        r
    }

    /// The representative of `x`, splitting the path on the way up.
    pub(crate) fn find(&mut self, x: usize) -> (r: usize)
        requires
            old(self).wf(),
            x < old(self).size(),
        ensures
            final(self).wf(),
            final(self).size() == old(self).size(),
            r == old(self).root(x as int),
            forall|y: int| 0 <= y < old(self).size() ==> #[trigger] final(self).root(y) == old(self).root(y),
    {
        let ghost start = x as int;
        let ghost before = *self;
        let mut x = x;
        proof {
            lemma_root_props(self.parent@, self.rank@, x as int);
        }
        while self.parent[x] != x
            invariant
                self.wf(),
                self.size() == before.size(),
                x < self.size(),
                self.root(x as int) == before.root(start),
                forall|y: int| 0 <= y < before.size() ==> #[trigger] self.root(y) == before.root(y),
            decreases 256 - self.rank@[x as int],
        {
            proof {
                lemma_root_props(self.parent@, self.rank@, x as int);
            }
            let p = self.parent[x];
            let gp = self.parent[p];
            let ghost prev = *self;
            proof {
                lemma_split(self.parent@, self.rank@, x as int);
                lemma_root_props(self.parent@, self.rank@, x as int);
                assert(self.rank@[x as int] < self.rank@[p as int]);
            }
            self.parent.set(x, gp);
            proof {
                assert(self.parent@ == prev.parent@.update(x as int, prev.parent@[p as int]));
                assert(self.rank@ == prev.rank@);
                assert forall|y: int| 0 <= y < before.size() implies #[trigger] self.root(y) == before.root(y) by {
                    assert(self.root(y) == prev.root(y));
                }
                assert(self.root(p as int) == prev.root(x as int));
            }
            x = p;
        }
        proof {
            lemma_root_props(self.parent@, self.rank@, x as int);
        }
        x
    }

    /// Merge the sets of `a` and `b`. Union by rank: no caller control over
    /// which root wins.
    #[verifier::rlimit(50)]
    pub(crate) fn union(&mut self, a: usize, b: usize)
        requires
            old(self).wf(),
            a < old(self).size(),
            b < old(self).size(),
        ensures
            final(self).wf(),
            final(self).size() == old(self).size(),
            final(self).root(a as int) == final(self).root(b as int),
            final(self).root(a as int) == old(self).root(a as int) || final(self).root(a as int)
                == old(self).root(b as int),
            forall|y: int|
                0 <= y < old(self).size() ==> #[trigger] final(self).root(y) == if old(self).root(y)
                    == old(self).root(a as int) || old(self).root(y) == old(self).root(b as int) {
                    final(self).root(a as int)
                } else {
                    old(self).root(y)
                },
    {
        let ghost before = *self;
        proof {
            lemma_root_props(self.parent@, self.rank@, a as int);
            lemma_root_props(self.parent@, self.rank@, b as int);
        }
        let ra = self.find(a);
        let ghost s1 = *self;
        let rb = self.find(b);
        proof {
            assert(s1.root(b as int) == before.root(b as int));
            assert(self.root(b as int) == s1.root(b as int));
            assert(self.root(a as int) == s1.root(a as int));
            lemma_root_props(self.parent@, self.rank@, a as int);
            lemma_root_props(self.parent@, self.rank@, b as int);
        }
        if ra == rb {
            return;
        }
        let ghost mid = *self;
        let n = self.parent.len();
        let rank_a = self.rank[ra];
        let rank_b = self.rank[rb];
        if rank_a < rank_b {
            proof {
                lemma_link(self.parent@, self.rank@, self.rank@, ra as int, rb as int);
            }
            self.parent.set(ra, rb);
            proof {
                assert(self.parent@ == mid.parent@.update(ra as int, rb));
                Self::lemma_union_post(before, mid, *self, a as int, b as int, ra as int, rb as int);
            }
        } else if rank_a > rank_b {
            proof {
                lemma_link(self.parent@, self.rank@, self.rank@, rb as int, ra as int);
            }
            self.parent.set(rb, ra);
            proof {
                assert(self.parent@ == mid.parent@.update(rb as int, ra));
                Self::lemma_union_post(before, mid, *self, a as int, b as int, rb as int, ra as int);
            }
        } else {
            proof {
                assert(n == self.parent@.len());
                lemma_rank_small(self.parent@, self.rank@, ra as int);
                lemma_link(
                    self.parent@,
                    self.rank@,
                    self.rank@.update(ra as int, (rank_a + 1) as u8),
                    rb as int,
                    ra as int,
                );
            }
            self.parent.set(rb, ra);
            self.rank.set(ra, rank_a + 1);
            proof {
                assert(self.parent@ == mid.parent@.update(rb as int, ra));
                assert(self.rank@ == mid.rank@.update(ra as int, (rank_a + 1) as u8));
                Self::lemma_union_post(before, mid, *self, a as int, b as int, rb as int, ra as int);
            }
        }
    }

    /// What linking `c` under `t` at the end of a union means for the union's
    /// callers: the two sets became one, every other set is unchanged.
    proof fn lemma_union_post(before: Self, mid: Self, after: Self, a: int, b: int, c: int, t: int)
        requires
            after.wf(),
            before.size() == mid.size(),
            mid.size() == after.size(),
            0 <= a < before.size(),
            0 <= b < before.size(),
            forall|y: int| 0 <= y < before.size() ==> #[trigger] mid.root(y) == before.root(y),
            forall|y: int|
                0 <= y < mid.size() ==> #[trigger] after.root(y) == if mid.root(y) == c {
                    t
                } else {
                    mid.root(y)
                },
            (c == mid.root(a) && t == mid.root(b)) || (c == mid.root(b) && t == mid.root(a)),
        ensures
            after.root(a) == after.root(b),
            after.root(a) == before.root(a) || after.root(a) == before.root(b),
            forall|y: int|
                0 <= y < before.size() ==> #[trigger] after.root(y) == if before.root(y) == before.root(a)
                    || before.root(y) == before.root(b) {
                    after.root(a)
                } else {
                    before.root(y)
                },
    {
        assert(mid.root(a) == before.root(a));
        assert(mid.root(b) == before.root(b));
        assert(after.root(a) == t);
        assert(after.root(b) == t);
        assert forall|y: int| 0 <= y < before.size() implies #[trigger] after.root(y) == if before.root(y)
            == before.root(a) || before.root(y) == before.root(b) {
            after.root(a)
        } else {
            before.root(y)
        } by {
            assert(mid.root(y) == before.root(y));
        }
    }
}

} // verus!
