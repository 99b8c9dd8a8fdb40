//! The shape of a forest: who is whose parent, and what follows from it.
//!
//! A [`Shape`] is a mathematical value. The scene keeps the links that it
//! speaks of in its components, and the rest of it (depths, the top of each
//! tree) as ghost state.

use vstd::prelude::*;

verus! {

/// Those of `order`, in order, that `kinds` marks.
pub open spec fn picked(kinds: Seq<bool>, order: Seq<int>) -> Seq<int>
    decreases order.len(),
{
    if order.len() == 0 {
        Seq::empty()
    } else {
        let rest = picked(kinds, order.drop_last());
        if 0 <= order.last() < kinds.len() && kinds[order.last()] {
            rest.push(order.last())
        } else {
            rest
        }
    }
}

/// Picking from one sequence after another is picking from each.
pub proof fn lemma_picked_add(kinds: Seq<bool>, a: Seq<int>, b: Seq<int>)
    ensures
        picked(kinds, a + b) == picked(kinds, a) + picked(kinds, b),
    decreases b.len(),
{
    if b.len() == 0 {
        assert(a + b =~= a);
        assert(picked(kinds, a) + picked(kinds, b) =~= picked(kinds, a));
    } else {
        assert((a + b).drop_last() =~= a + b.drop_last());
        assert((a + b).last() == b.last());
        lemma_picked_add(kinds, a, b.drop_last());
        assert(picked(kinds, a + b) =~= picked(kinds, a) + picked(kinds, b));
    }
}

/// Picking from a sequence of one.
pub proof fn lemma_picked_one(kinds: Seq<bool>, n: int)
    ensures
        picked(kinds, seq![n]) == if 0 <= n < kinds.len() && kinds[n] {
            seq![n]
        } else {
            Seq::empty()
        },
{
    assert(seq![n].drop_last() =~= Seq::<int>::empty());
    assert(picked(kinds, seq![n].drop_last()) =~= Seq::<int>::empty());
    assert(Seq::<int>::empty().push(n) =~= seq![n]);
}

/// A forest over the indices `0 .. len`.
pub struct Shape {
    /// The parent of each index, if it has one.
    pub parents: Seq<Option<int>>,
    /// The children of each index, in the order in which they were added.
    pub children: Seq<Seq<int>>,
    /// How many steps each index is below the top of its tree.
    pub depth: Seq<nat>,
    /// The top of the tree of each index.
    pub tree: Seq<int>,
    /// A number above every depth.
    pub bound: nat,
}

impl Shape {
    pub open spec fn len(self) -> nat {
        self.parents.len()
    }

    pub open spec fn valid(self, i: int) -> bool {
        0 <= i < self.parents.len()
    }

    /// The forest with no index.
    pub open spec fn empty() -> Shape {
        Shape {
            parents: Seq::empty(),
            children: Seq::empty(),
            depth: Seq::empty(),
            tree: Seq::empty(),
            bound: 1,
        }
    }

    /// The links form a forest: every child names its parent and every parent
    /// lists its child, once; a child is one step deeper than its parent and
    /// in the same tree; an index without a parent is the top of its tree.
    pub open spec fn wf(self) -> bool {
        &&& self.children.len() == self.len()
        &&& self.depth.len() == self.len()
        &&& self.tree.len() == self.len()
        &&& forall|p: int, k: int|
            self.valid(p) && 0 <= k < self.children[p].len() ==> {
                &&& self.valid(#[trigger] self.children[p][k])
                &&& self.parents[self.children[p][k]] == Some(p)
            }
        &&& forall|c: int|
            self.valid(c) ==> match #[trigger] self.parents[c] {
                Some(p) => {
                    &&& self.valid(p)
                    &&& self.children[p].contains(c)
                    &&& self.depth[c] == self.depth[p] + 1
                    &&& self.tree[c] == self.tree[p]
                },
                None => self.depth[c] == 0 && self.tree[c] == c,
            }
        &&& forall|p: int| self.valid(p) ==> (#[trigger] self.children[p]).no_duplicates()
        &&& forall|c: int| self.valid(c) ==> #[trigger] self.depth[c] < self.bound
        &&& forall|c: int|
            self.valid(c) ==> self.valid(#[trigger] self.tree[c]) && self.parents[self.tree[c]]
                is None
    }

    /// Whether `fuel` steps up from `m` pass `a`.
    pub open spec fn reaches_within(self, a: int, m: int, fuel: nat) -> bool
        decreases fuel,
    {
        m == a || (fuel > 0 && self.valid(m) && match self.parents[m] {
            Some(p) => self.reaches_within(a, p, (fuel - 1) as nat),
            None => false,
        })
    }

    /// Whether `m` is `a` or below `a`: whether `m` is in the subtree of `a`.
    pub open spec fn reaches(self, a: int, m: int) -> bool {
        self.valid(m) && self.reaches_within(a, m, self.depth[m])
    }

    /// Whether `m` is `n`, or in the subtree of one of the first `k`
    /// children of `n`.
    pub open spec fn covered(self, n: int, k: int, m: int) -> bool {
        m == n || exists|j: int| 0 <= j < k && #[trigger] self.reaches(self.children[n][j], m)
    }

    /// The subtree of `n` as the traversal walks it: `n`, then the subtree
    /// of each child, in the order of the children.
    pub open spec fn preorder(self, n: int) -> Seq<int>
        decreases self.bound - self.depth[n], self.children[n].len() + 1,
    {
        if self.wf() && self.valid(n) {
            seq![n] + self.preorder_below(n, self.children[n].len() as int)
        } else {
            Seq::empty()
        }
    }

    /// The subtrees of the first `k` children of `n`, one after the other.
    pub open spec fn preorder_below(self, n: int, k: int) -> Seq<int>
        decreases self.bound - self.depth[n], k,
    {
        if self.wf() && self.valid(n) && 0 < k <= self.children[n].len() {
            self.preorder_below(n, k - 1) + self.preorder(self.children[n][k - 1])
        } else {
            Seq::empty()
        }
    }

    /// The forest with one more index, which has no parent and no child.
    pub open spec fn grow(self) -> Shape {
        Shape {
            parents: self.parents.push(None),
            children: self.children.push(Seq::empty()),
            depth: self.depth.push(0),
            tree: self.tree.push(self.len() as int),
            bound: self.bound + 1,
        }
    }

    /// The forest in which the top `c` of a tree has become the last child
    /// of `p`: the tree of `c` is now part of the tree of `p`.
    pub open spec fn link(self, p: int, c: int) -> Shape {
        Shape {
            parents: self.parents.update(c, Some(p)),
            children: self.children.update(p, self.children[p].push(c)),
            depth: Seq::new(
                self.len(),
                |i: int|
                    if self.tree[i] == c {
                        self.depth[i] + self.depth[p] + 1
                    } else {
                        self.depth[i]
                    },
            ),
            tree: Seq::new(
                self.len(),
                |i: int|
                    if self.tree[i] == c {
                        self.tree[p]
                    } else {
                        self.tree[i]
                    },
            ),
            bound: self.bound + self.depth[p] + 1,
        }
    }

    pub proof fn lemma_grow_wf(self)
        requires
            self.wf(),
        ensures
            self.grow().wf(),
    {
        let g = self.grow();
        assert forall|p: int, k: int| g.valid(p) && 0 <= k < g.children[p].len() implies {
            &&& g.valid(#[trigger] g.children[p][k])
            &&& g.parents[g.children[p][k]] == Some(p)
        } by {
            assert(self.valid(p));
            assert(self.valid(self.children[p][k]));
        }
        assert forall|c: int| g.valid(c) implies match #[trigger] g.parents[c] {
            Some(p) => {
                &&& g.valid(p)
                &&& g.children[p].contains(c)
                &&& g.depth[c] == g.depth[p] + 1
                &&& g.tree[c] == g.tree[p]
            },
            None => g.depth[c] == 0 && g.tree[c] == c,
        } by {
            if c < self.len() {
                assert(self.valid(c));
                assert(g.parents[c] == self.parents[c]);
            }
        }
        assert forall|p: int| g.valid(p) implies (#[trigger] g.children[p]).no_duplicates() by {
            if p < self.len() {
                assert(g.children[p] == self.children[p]);
            }
        }
        assert forall|c: int| g.valid(c) implies #[trigger] g.depth[c] < g.bound by {
            if c < self.len() {
                assert(g.depth[c] == self.depth[c]);
            }
        }
        assert forall|c: int| g.valid(c) implies g.valid(#[trigger] g.tree[c]) && g.parents[g.tree[c]]
            is None by {
            if c < self.len() {
                assert(g.tree[c] == self.tree[c]);
                assert(self.valid(self.tree[c]));
            }
        }
    }

    /// Linking the top of one tree under an index of another tree leaves a
    /// forest.
    pub proof fn lemma_link_wf(self, p: int, c: int)
        requires
            self.wf(),
            self.valid(p),
            self.valid(c),
            self.parents[c] is None,
            self.tree[p] != c,
        ensures
            self.link(p, c).wf(),
    {
        let g = self.link(p, c);
        assert(self.tree[c] == c);
        assert(self.depth[c] == 0);
        assert(!self.children[p].contains(c)) by {
            if self.children[p].contains(c) {
                let k = choose|k: int| 0 <= k < self.children[p].len() && self.children[p][k] == c;
                assert(self.parents[self.children[p][k]] == Some(p));
            }
        }
        assert forall|q: int, k: int| g.valid(q) && 0 <= k < g.children[q].len() implies {
            &&& g.valid(#[trigger] g.children[q][k])
            &&& g.parents[g.children[q][k]] == Some(q)
        } by {
            if q == p && k == self.children[p].len() {
            } else {
                assert(g.children[q][k] == self.children[q][k]);
                let x = self.children[q][k];
                assert(self.valid(x));
                assert(self.parents[x] == Some(q));
            }
        }
        assert forall|x: int| g.valid(x) implies match #[trigger] g.parents[x] {
            Some(q) => {
                &&& g.valid(q)
                &&& g.children[q].contains(x)
                &&& g.depth[x] == g.depth[q] + 1
                &&& g.tree[x] == g.tree[q]
            },
            None => g.depth[x] == 0 && g.tree[x] == x,
        } by {
            if x == c {
                assert(g.children[p][self.children[p].len() as int] == c);
            } else {
                assert(g.parents[x] == self.parents[x]);
                match self.parents[x] {
                    Some(q) => {
                        let k = choose|k: int|
                            0 <= k < self.children[q].len() && self.children[q][k]
                                == x;
                        assert(g.children[q][k] == x);
                    },
                    None => {},
                }
            }
        }
        assert forall|q: int| g.valid(q) implies (#[trigger] g.children[q]).no_duplicates() by {
            assert(self.children[q].no_duplicates());
            if q == p {
                let old_kids = self.children[p];
                assert forall|i: int, j: int|
                    0 <= i < g.children[q].len() && 0 <= j < g.children[q].len() && i
                        != j implies g.children[q][i] != g.children[q][j] by {
                    if i < old_kids.len() && j < old_kids.len() {
                    } else if i < old_kids.len() {
                        assert(old_kids.contains(old_kids[i]));
                    } else {
                        assert(old_kids.contains(old_kids[j]));
                    }
                }
            }
        }
        assert forall|x: int| g.valid(x) implies #[trigger] g.depth[x] < g.bound by {
            assert(self.depth[x] < self.bound);
        }
        assert forall|x: int| g.valid(x) implies g.valid(#[trigger] g.tree[x]) && g.parents[g.tree[x]]
            is None by {
            assert(self.valid(self.tree[x]));
            assert(self.valid(self.tree[p]));
        }
    }

    /// One step up: below `a`, an index is in the subtree of `a` exactly
    /// when its parent is.
    pub proof fn lemma_reaches_step(self, a: int, m: int)
        requires
            self.wf(),
            self.valid(m),
            m != a,
        ensures
            self.reaches(a, m) <==> (self.parents[m] is Some && self.reaches(
                a,
                self.parents[m]->0,
            )),
    {
        match self.parents[m] {
            Some(p) => {
                assert(self.depth[m] == self.depth[p] + 1);
            },
            None => {},
        }
    }

    /// What is in the subtree of `a` is at least as deep as `a`, and in the
    /// tree of `a`.
    pub proof fn lemma_reaches_below(self, a: int, m: int)
        requires
            self.wf(),
            self.reaches(a, m),
        ensures
            self.valid(a),
            self.depth[a] <= self.depth[m],
            self.tree[a] == self.tree[m],
        decreases self.depth[m],
    {
        if m != a {
            self.lemma_reaches_step(a, m);
            self.lemma_reaches_below(a, self.parents[m]->0);
        }
    }

    /// Two subtrees whose tops are equally deep share no index, unless they
    /// are one subtree.
    pub proof fn lemma_reaches_disjoint(self, a: int, b: int, m: int)
        requires
            self.wf(),
            self.reaches(a, m),
            self.reaches(b, m),
            self.depth[a] == self.depth[b],
        ensures
            a == b,
        decreases self.depth[m],
    {
        self.lemma_reaches_below(a, m);
        self.lemma_reaches_below(b, m);
        if m == a || m == b {
            if a != b {
                if m == a {
                    self.lemma_reaches_step(b, m);
                    self.lemma_reaches_below(b, self.parents[m]->0);
                } else {
                    self.lemma_reaches_step(a, m);
                    self.lemma_reaches_below(a, self.parents[m]->0);
                }
            }
        } else {
            self.lemma_reaches_step(a, m);
            self.lemma_reaches_step(b, m);
            self.lemma_reaches_disjoint(a, b, self.parents[m]->0);
        }
    }

    /// The subtree of a child is part of the subtree of its parent, and does
    /// not hold the parent.
    pub proof fn lemma_reaches_child(self, n: int, j: int, m: int)
        requires
            self.wf(),
            self.valid(n),
            0 <= j < self.children[n].len(),
            self.reaches(self.children[n][j], m),
        ensures
            self.reaches(n, m),
            m != n,
        decreases self.depth[m],
    {
        let c = self.children[n][j];
        assert(self.valid(c));
        assert(self.parents[c] == Some(n));
        self.lemma_reaches_below(c, m);
        if m == c {
            self.lemma_reaches_step(n, m);
        } else {
            self.lemma_reaches_step(c, m);
            self.lemma_reaches_child(n, j, self.parents[m]->0);
            self.lemma_reaches_step(n, m);
        }
    }

    /// What is in the subtree of `n` and is not `n` is in the subtree of a
    /// child of `n`.
    pub proof fn lemma_reaches_through_child(self, n: int, m: int) -> (j: int)
        requires
            self.wf(),
            self.valid(n),
            self.reaches(n, m),
            m != n,
        ensures
            0 <= j < self.children[n].len(),
            self.reaches(self.children[n][j], m),
        decreases self.depth[m],
    {
        self.lemma_reaches_step(n, m);
        let p = self.parents[m]->0;
        if p == n {
            let j = choose|j: int| 0 <= j < self.children[n].len() && self.children[n][j] == m;
            j
        } else {
            let j = self.lemma_reaches_through_child(n, p);
            let c = self.children[n][j];
            self.lemma_reaches_below(c, p);
            self.lemma_reaches_step(c, m);
            j
        }
    }

    /// Once every child of `n` is counted, what is covered is the subtree of
    /// `n`.
    pub proof fn lemma_covered_all(self, n: int, m: int)
        requires
            self.wf(),
            self.valid(n),
        ensures
            self.covered(n, self.children[n].len() as int, m) <==> self.reaches(n, m),
    {
        if self.reaches(n, m) && m != n {
            let j = self.lemma_reaches_through_child(n, m);
        }
        if self.covered(n, self.children[n].len() as int, m) && m != n {
            let j = choose|j: int|
                0 <= j < self.children[n].len() && #[trigger] self.reaches(
                    self.children[n][j],
                    m,
                );
            self.lemma_reaches_child(n, j, m);
        }
    }

    /// Counting one more child adds the subtree of that child.
    pub proof fn lemma_covered_next(self, n: int, k: int, m: int)
        requires
            0 <= k,
        ensures
            self.covered(n, k + 1, m) <==> (self.covered(n, k, m) || self.reaches(
                self.children[n][k],
                m,
            )),
    {
        if self.covered(n, k + 1, m) && m != n {
            let j = choose|j: int|
                0 <= j < k + 1 && #[trigger] self.reaches(self.children[n][j], m);
            if j < k {
                assert(self.covered(n, k, m));
            }
        }
        if self.covered(n, k, m) && m != n {
            let j = choose|j: int| 0 <= j < k && #[trigger] self.reaches(self.children[n][j], m);
            assert(0 <= j < k + 1);
        }
    }

    /// The subtree of the child `k` shares nothing with what is covered
    /// before it.
    pub proof fn lemma_covered_apart(self, n: int, k: int, m: int)
        requires
            self.wf(),
            self.valid(n),
            0 <= k < self.children[n].len(),
            self.reaches(self.children[n][k], m),
        ensures
            !self.covered(n, k, m),
    {
        self.lemma_reaches_child(n, k, m);
        if self.covered(n, k, m) {
            let j = choose|j: int| 0 <= j < k && #[trigger] self.reaches(self.children[n][j], m);
            let a = self.children[n][j];
            let b = self.children[n][k];
            assert(self.parents[a] == Some(n));
            assert(self.parents[b] == Some(n));
            assert(self.valid(a) && self.valid(b));
            self.lemma_reaches_disjoint(a, b, m);
            assert(self.children[n].no_duplicates());
        }
    }

    /// What is covered below `n` has its parent covered too.
    pub proof fn lemma_covered_parent(self, n: int, k: int, m: int)
        requires
            self.wf(),
            self.valid(n),
            0 <= k <= self.children[n].len(),
            self.covered(n, k, m),
            m != n,
        ensures
            self.parents[m] is Some,
            self.covered(n, k, self.parents[m]->0),
    {
        let j = choose|j: int| 0 <= j < k && #[trigger] self.reaches(self.children[n][j], m);
        let c = self.children[n][j];
        assert(self.valid(c) && self.parents[c] == Some(n));
        if m != c {
            self.lemma_reaches_step(c, m);
        }
    }

    /// What is covered below `n` is in the subtree of `n`.
    pub proof fn lemma_covered_reaches(self, n: int, k: int, m: int)
        requires
            self.wf(),
            self.valid(n),
            0 <= k <= self.children[n].len(),
            self.covered(n, k, m),
        ensures
            self.reaches(n, m),
    {
        if m != n {
            let j = choose|j: int| 0 <= j < k && #[trigger] self.reaches(self.children[n][j], m);
            self.lemma_reaches_child(n, j, m);
        }
    }

    /// What the walk of the subtree of `n` passes is in the subtree of `n`.
    pub proof fn lemma_preorder_reaches(self, n: int, i: int)
        requires
            self.wf(),
            self.valid(n),
            0 <= i < self.preorder(n).len(),
        ensures
            self.reaches(n, self.preorder(n)[i]),
        decreases self.bound - self.depth[n], self.children[n].len() + 1,
    {
        if i > 0 {
            let count = self.children[n].len() as int;
            let l = self.lemma_below_reaches(n, count, i - 1);
            self.lemma_reaches_child(n, l, self.preorder(n)[i]);
        }
    }

    /// What the walk of the first `k` children of `n` passes is in the
    /// subtree of one of them.
    pub proof fn lemma_below_reaches(self, n: int, k: int, i: int) -> (l: int)
        requires
            self.wf(),
            self.valid(n),
            0 <= k <= self.children[n].len(),
            0 <= i < self.preorder_below(n, k).len(),
        ensures
            0 <= l < k,
            self.reaches(self.children[n][l], self.preorder_below(n, k)[i]),
        decreases self.bound - self.depth[n], k,
    {
        let before = self.preorder_below(n, k - 1);
        let c = self.children[n][k - 1];
        assert(self.valid(c) && self.parents[c] == Some(n));
        if i < before.len() {
            self.lemma_below_reaches(n, k - 1, i)
        } else {
            self.lemma_preorder_reaches(c, i - before.len());
            k - 1
        }
    }

    /// The walk of the first `k` children of `n` is the beginning of the
    /// walk of the first `k2`, and what the longer walk passes after it is in
    /// the subtree of one of the children from `k` on.
    pub proof fn lemma_below_later(self, n: int, k: int, k2: int, i: int) -> (l: int)
        requires
            self.wf(),
            self.valid(n),
            0 <= k <= k2 <= self.children[n].len(),
        ensures
            self.preorder_below(n, k).is_prefix_of(self.preorder_below(n, k2)),
            self.preorder_below(n, k).len() <= i < self.preorder_below(n, k2).len() ==> k <= l < k2
                && self.reaches(self.children[n][l], self.preorder_below(n, k2)[i]),
        decreases k2 - k,
    {
        if k2 == k {
            0
        } else {
            let shorter = self.preorder_below(n, k2 - 1);
            let c = self.children[n][k2 - 1];
            assert(self.valid(c) && self.parents[c] == Some(n));
            let l = self.lemma_below_later(n, k, k2 - 1, i);
            assert(self.preorder_below(n, k2) == shorter + self.preorder(c));
            if shorter.len() <= i < self.preorder_below(n, k2).len() {
                self.lemma_preorder_reaches(c, i - shorter.len());
                k2 - 1
            } else {
                l
            }
        }
    }

    /// What is covered by fewer children is covered by more.
    pub proof fn lemma_covered_more(self, n: int, k: int, k2: int, m: int)
        requires
            k <= k2,
            self.covered(n, k, m),
        ensures
            self.covered(n, k2, m),
    {
        if m != n {
            let j = choose|j: int| 0 <= j < k && #[trigger] self.reaches(self.children[n][j], m);
            assert(0 <= j < k2);
        }
    }

    /// The subtree of the top of a tree is that tree.
    pub proof fn lemma_reaches_tree(self, a: int, m: int)
        requires
            self.wf(),
            self.valid(a),
            self.parents[a] is None,
            self.valid(m),
        ensures
            self.reaches(a, m) <==> self.tree[m] == a,
        decreases self.depth[m],
    {
        if self.reaches(a, m) {
            self.lemma_reaches_below(a, m);
        }
        if m != a {
            self.lemma_reaches_step(a, m);
            match self.parents[m] {
                Some(p) => {
                    self.lemma_reaches_tree(a, p);
                },
                None => {},
            }
        }
    }
}

} // verus!
