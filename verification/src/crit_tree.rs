//! Crit-bit trees over slots of nodes.
//!
//! A [`Tree`] is the shape that the handles in some slots span. What it means for the slots to
//! hold such a tree, and what the operations on slots do to it, is stated here; nothing in this
//! module is executed.
use crate::node::{AnyNode, LeafNode};
use vstd::prelude::*;

verus! {

/// The shape of a tree: the handle of each node, branches with their two subtrees.
pub enum Tree {
    Leaf(u32),
    Inner(u32, Box<Tree>, Box<Tree>),
}

impl Tree {
    pub open spec fn root(self) -> u32 {
        match self {
            Tree::Leaf(h) => h,
            Tree::Inner(h, _, _) => h,
        }
    }

    /// The handles of all nodes.
    pub open spec fn handles(self) -> Set<u32>
        decreases self,
    {
        match self {
            Tree::Leaf(h) => set![h],
            Tree::Inner(h, l, r) => l.handles().union(r.handles()).insert(h),
        }
    }

    pub open spec fn leaf_count(self) -> nat
        decreases self,
    {
        match self {
            Tree::Leaf(h) => 1,
            Tree::Inner(h, l, r) => l.leaf_count() + r.leaf_count(),
        }
    }

    /// Whether every key in this subtree has the first `n` bits of `key` and then the bit `b`.
    pub open spec fn all_start<O>(self, nodes: Seq<AnyNode<O>>, key: u128, n: u32, b: bool) -> bool {
        forall|x: u32|
            #[trigger] self.handles().contains(x) && nodes[x as int] is Leaf ==> crate::bits::agree(
                nodes[x as int]->Leaf_0.key,
                key,
                n,
            ) && crate::bits::bit(nodes[x as int]->Leaf_0.key, n) == b
    }

    /// Whether the slots hold this tree.
    pub open spec fn stored<O>(self, nodes: Seq<AnyNode<O>>) -> bool
        decreases self,
    {
        match self {
            Tree::Leaf(h) => (h as int) < nodes.len() && nodes[h as int] is Leaf,
            Tree::Inner(h, l, r) => {
                &&& (h as int) < nodes.len()
                &&& nodes[h as int] is Inner
                &&& nodes[h as int]->Inner_0.prefix_len < 128
                &&& nodes[h as int]->Inner_0.children[0] == l.root()
                &&& nodes[h as int]->Inner_0.children[1] == r.root()
                &&& l.stored(nodes)
                &&& r.stored(nodes)
                &&& l.handles().disjoint(r.handles())
                &&& !l.handles().contains(h)
                &&& !r.handles().contains(h)
                &&& l.all_start(
                    nodes,
                    nodes[h as int]->Inner_0.key,
                    nodes[h as int]->Inner_0.prefix_len,
                    false,
                )
                &&& r.all_start(
                    nodes,
                    nodes[h as int]->Inner_0.key,
                    nodes[h as int]->Inner_0.prefix_len,
                    true,
                )
            },
        }
    }

    /// The keys of the leaves.
    pub open spec fn keys<O>(self, nodes: Seq<AnyNode<O>>) -> Set<u128>
        decreases self,
    {
        match self {
            Tree::Leaf(h) => set![nodes[h as int]->Leaf_0.key],
            Tree::Inner(h, l, r) => l.keys(nodes).union(r.keys(nodes)),
        }
    }

    /// The leaves from left to right.
    pub open spec fn in_order<O>(self, nodes: Seq<AnyNode<O>>) -> Seq<LeafNode<O>>
        decreases self,
    {
        match self {
            Tree::Leaf(h) => seq![nodes[h as int]->Leaf_0],
            Tree::Inner(h, l, r) => l.in_order(nodes) + r.in_order(nodes),
        }
    }

    /// The subtree at handle `h`.
    pub open spec fn at(self, h: u32) -> Tree
        decreases self,
    {
        match self {
            Tree::Leaf(_) => self,
            Tree::Inner(root, l, r) => if root == h {
                self
            } else if l.handles().contains(h) {
                l.at(h)
            } else {
                r.at(h)
            },
        }
    }

    /// This tree with the subtree at `h` replaced.
    pub open spec fn with(self, h: u32, s: Tree) -> Tree
        decreases self,
    {
        if self.root() == h {
            s
        } else {
            match self {
                Tree::Leaf(_) => self,
                Tree::Inner(root, l, r) => if l.handles().contains(h) {
                    Tree::Inner(root, Box::new(l.with(h, s)), r)
                } else {
                    Tree::Inner(root, l, Box::new(r.with(h, s)))
                },
            }
        }
    }

    /// This tree with its root moved to another handle.
    pub open spec fn rooted_at(self, m: u32) -> Tree {
        match self {
            Tree::Leaf(_) => Tree::Leaf(m),
            Tree::Inner(_, l, r) => Tree::Inner(m, l, r),
        }
    }

    /// Whether the bits of `key` lead from the root to `h`.
    pub open spec fn leads<O>(self, nodes: Seq<AnyNode<O>>, h: u32, key: u128) -> bool
        decreases self,
    {
        self.root() == h || match self {
            Tree::Leaf(_) => false,
            Tree::Inner(root, l, r) => if crate::bits::bit(key, nodes[root as int]->Inner_0.prefix_len) {
                r.leads(nodes, h, key)
            } else {
                l.leads(nodes, h, key)
            },
        }
    }

    /// Whether the branches above `h` all have a prefix that `key` shares.
    pub open spec fn fits<O>(self, nodes: Seq<AnyNode<O>>, h: u32, key: u128) -> bool
        decreases self,
    {
        self.root() == h || match self {
            Tree::Leaf(_) => false,
            Tree::Inner(root, l, r) => {
                &&& crate::bits::agree(
                    key,
                    nodes[root as int]->Inner_0.key,
                    nodes[root as int]->Inner_0.prefix_len,
                )
                &&& if crate::bits::bit(key, nodes[root as int]->Inner_0.prefix_len) {
                    r.fits(nodes, h, key)
                } else {
                    l.fits(nodes, h, key)
                }
            },
        }
    }

    pub proof fn lemma_root(self)
        ensures
            self.handles().contains(self.root()),
    {
    }

    /// A tree of `n` leaves has `2 n - 1` nodes, all in slots, and `n` different keys.
    pub proof fn lemma_sizes<O>(self, nodes: Seq<AnyNode<O>>)
        requires
            self.stored(nodes),
        ensures
            self.leaf_count() >= 1,
            self.handles().finite(),
            self.handles().len() == 2 * self.leaf_count() - 1,
            self.keys(nodes).finite(),
            self.keys(nodes).len() == self.leaf_count(),
            self.in_order(nodes).len() == self.leaf_count(),
            forall|x: u32|
                #[trigger] self.handles().contains(x) ==> (x as int) < nodes.len()
                    && nodes[x as int].live(),
            forall|x: u32|
                #[trigger] self.handles().contains(x) && nodes[x as int] is Leaf ==> self.keys(
                    nodes,
                ).contains(nodes[x as int]->Leaf_0.key),
            forall|k: u128| #[trigger]
                self.keys(nodes).contains(k) ==> exists|x: u32| #[trigger]
                    self.handles().contains(x) && nodes[x as int] is Leaf
                        && nodes[x as int]->Leaf_0.key == k,
        decreases self,
    {
        match self {
            Tree::Leaf(h) => {
                assert(self.handles() =~= Set::empty().insert(h));
                assert(self.keys(nodes) =~= Set::empty().insert(nodes[h as int]->Leaf_0.key));
                assert(self.handles().contains(h));
            },
            Tree::Inner(h, l, r) => {
                l.lemma_sizes(nodes);
                r.lemma_sizes(nodes);
                let n = nodes[h as int]->Inner_0;
                assert(l.keys(nodes).disjoint(r.keys(nodes)));
                vstd::set_lib::lemma_set_disjoint_lens(l.handles(), r.handles());
                vstd::set_lib::lemma_set_disjoint_lens(l.keys(nodes), r.keys(nodes));
                assert(!l.handles().union(r.handles()).contains(h));
                assert forall|k: u128| #[trigger] self.keys(nodes).contains(k) implies exists|x: u32| #[trigger]
                    self.handles().contains(x) && nodes[x as int] is Leaf
                        && nodes[x as int]->Leaf_0.key == k by {
                    if l.keys(nodes).contains(k) {
                        let x = choose|x: u32| #[trigger]
                            l.handles().contains(x) && nodes[x as int] is Leaf
                                && nodes[x as int]->Leaf_0.key == k;
                        assert(self.handles().contains(x));
                    } else {
                        let x = choose|x: u32| #[trigger]
                            r.handles().contains(x) && nodes[x as int] is Leaf
                                && nodes[x as int]->Leaf_0.key == k;
                        assert(self.handles().contains(x));
                    }
                }
            },
        }
    }

    /// Different leaves have different keys.
    pub proof fn lemma_leaves_differ<O>(self, nodes: Seq<AnyNode<O>>, x: u32, y: u32)
        requires
            self.stored(nodes),
            self.handles().contains(x),
            self.handles().contains(y),
            x != y,
            nodes[x as int] is Leaf,
            nodes[y as int] is Leaf,
        ensures
            nodes[x as int]->Leaf_0.key != nodes[y as int]->Leaf_0.key,
        decreases self,
    {
        match self {
            Tree::Leaf(h) => {},
            Tree::Inner(h, l, r) => {
                if l.handles().contains(x) && l.handles().contains(y) {
                    l.lemma_leaves_differ(nodes, x, y);
                } else if r.handles().contains(x) && r.handles().contains(y) {
                    r.lemma_leaves_differ(nodes, x, y);
                }
            },
        }
    }

    /// Slots outside a tree do not matter to it.
    pub proof fn lemma_frame<O>(self, nodes: Seq<AnyNode<O>>, other: Seq<AnyNode<O>>)
        requires
            self.stored(nodes),
            nodes.len() == other.len(),
            forall|x: u32| #[trigger] self.handles().contains(x) ==> other[x as int] == nodes[x as int],
        ensures
            self.stored(other),
            self.keys(other) == self.keys(nodes),
            self.in_order(other) == self.in_order(nodes),
        decreases self,
    {
        self.lemma_root();
        match self {
            Tree::Leaf(h) => {},
            Tree::Inner(h, l, r) => {
                assert forall|x: u32| #[trigger] l.handles().contains(x) implies other[x as int]
                    == nodes[x as int] by {
                    assert(self.handles().contains(x));
                }
                assert forall|x: u32| #[trigger] r.handles().contains(x) implies other[x as int]
                    == nodes[x as int] by {
                    assert(self.handles().contains(x));
                }
                l.lemma_frame(nodes, other);
                r.lemma_frame(nodes, other);
            },
        }
    }

    /// The subtree at a handle is a stored part of the tree.
    pub proof fn lemma_at<O>(self, nodes: Seq<AnyNode<O>>, h: u32)
        requires
            self.stored(nodes),
            self.handles().contains(h),
        ensures
            self.at(h).root() == h,
            self.at(h).stored(nodes),
            self.at(h).handles().subset_of(self.handles()),
        decreases self,
    {
        match self {
            Tree::Leaf(_) => {},
            Tree::Inner(root, l, r) => {
                if root != h {
                    if l.handles().contains(h) {
                        l.lemma_at(nodes, h);
                    } else {
                        r.lemma_at(nodes, h);
                    }
                }
            },
        }
    }

    /// The bits of a key lead to a node of the tree, and if the key is in the tree, it is in the
    /// subtree there.
    pub proof fn lemma_leads<O>(self, nodes: Seq<AnyNode<O>>, h: u32, key: u128)
        requires
            self.stored(nodes),
            self.leads(nodes, h, key),
        ensures
            self.handles().contains(h),
            self.at(h).root() == h,
            self.at(h).stored(nodes),
            self.at(h).handles().subset_of(self.handles()),
            self.keys(nodes).contains(key) == self.at(h).keys(nodes).contains(key),
        decreases self,
    {
        self.lemma_root();
        match self {
            Tree::Leaf(_) => {},
            Tree::Inner(root, l, r) => {
                let n = nodes[root as int]->Inner_0;
                if root != h {
                    l.lemma_sizes(nodes);
                    r.lemma_sizes(nodes);
                    if crate::bits::bit(key, n.prefix_len) {
                        r.lemma_leads(nodes, h, key);
                        assert(!l.handles().contains(h));
                        assert(!l.keys(nodes).contains(key));
                    } else {
                        l.lemma_leads(nodes, h, key);
                        assert(!r.keys(nodes).contains(key));
                    }
                }
            },
        }
    }

    /// One step further down.
    pub proof fn lemma_step<O>(self, nodes: Seq<AnyNode<O>>, h: u32, key: u128)
        requires
            self.stored(nodes),
            self.leads(nodes, h, key),
            nodes[h as int] is Inner,
        ensures
            ({
                let n = nodes[h as int]->Inner_0;
                let c = n.child(crate::bits::bit(key, n.prefix_len));
                &&& self.at(h) matches Tree::Inner(_, l, r)
                &&& self.at(c) == if crate::bits::bit(key, n.prefix_len) {
                    *r
                } else {
                    *l
                }
                &&& self.leads(nodes, c, key)
                &&& self.fits(nodes, h, key) && crate::bits::agree(key, n.key, n.prefix_len)
                    ==> self.fits(nodes, c, key)
            }),
        decreases self,
    {
        let n = nodes[h as int]->Inner_0;
        let b = crate::bits::bit(key, n.prefix_len);
        let c = n.child(b);
        match self {
            Tree::Leaf(root) => {
                assert(root == h);
                assert(nodes[root as int] is Leaf);
            },
            Tree::Inner(root, l, r) => {
                l.lemma_root();
                r.lemma_root();
                if root == h {
                    assert(c != root);
                    if b {
                        assert(!l.handles().contains(c));
                    }
                    assert(l.at(l.root()) == *l);
                    assert(r.at(r.root()) == *r);
                    assert(l.fits(nodes, l.root(), key) && r.fits(nodes, r.root(), key));
                    assert(l.leads(nodes, l.root(), key) && r.leads(nodes, r.root(), key));
                } else {
                    let m = nodes[root as int]->Inner_0;
                    if crate::bits::bit(key, m.prefix_len) {
                        r.lemma_step(nodes, h, key);
                        r.lemma_leads(nodes, h, key);
                        r.lemma_leads(nodes, c, key);
                    } else {
                        l.lemma_step(nodes, h, key);
                        l.lemma_leads(nodes, h, key);
                        l.lemma_leads(nodes, c, key);
                    }
                    assert(c != root);
                }
            },
        }
    }

    /// A tree whose root node has been copied to slot `m` is stored with its root at `m`.
    pub proof fn lemma_rooted_at<O>(self, nodes: Seq<AnyNode<O>>, other: Seq<AnyNode<O>>, m: u32)
        requires
            self.stored(nodes),
            nodes.len() == other.len(),
            (m as int) < nodes.len(),
            m == self.root() || !self.handles().contains(m),
            other[m as int] == nodes[self.root() as int],
            forall|x: u32| #[trigger]
                self.handles().contains(x) && x != self.root() ==> other[x as int] == nodes[x as int],
        ensures
            self.rooted_at(m).stored(other),
            self.rooted_at(m).root() == m,
            self.rooted_at(m).handles() == self.handles().remove(self.root()).insert(m),
            self.rooted_at(m).keys(other) == self.keys(nodes),
            self.rooted_at(m).leaf_count() == self.leaf_count(),
    {
        match self {
            Tree::Leaf(h) => {
                assert(self.rooted_at(m).handles() =~= self.handles().remove(self.root()).insert(m));
            },
            Tree::Inner(h, l, r) => {
                assert forall|x: u32| #[trigger] l.handles().contains(x) implies other[x as int]
                    == nodes[x as int] by {
                    assert(self.handles().contains(x));
                }
                assert forall|x: u32| #[trigger] r.handles().contains(x) implies other[x as int]
                    == nodes[x as int] by {
                    assert(self.handles().contains(x));
                }
                l.lemma_frame(nodes, other);
                r.lemma_frame(nodes, other);
                assert(l.handles().subset_of(self.handles()));
                assert(r.handles().subset_of(self.handles()));
                assert(self.rooted_at(m).handles() =~= self.handles().remove(self.root()).insert(m));
            },
        }
    }

    /// Whether each key of `s` is one of `t` or is `key`.
    pub open spec fn drawn_from<O>(
        s: Tree,
        other: Seq<AnyNode<O>>,
        t: Tree,
        nodes: Seq<AnyNode<O>>,
        key: Option<u128>,
    ) -> bool {
        forall|k: u128| #[trigger]
            s.keys(other).contains(k) ==> t.keys(nodes).contains(k) || key == Some(k)
    }

    /// Replacing the subtree at `h` by one whose keys were there before, but for one key that
    /// belongs there, gives a tree again.
    pub proof fn lemma_with<O>(self, nodes: Seq<AnyNode<O>>, other: Seq<AnyNode<O>>, h: u32, s: Tree, key: Option<u128>)
        requires
            self.stored(nodes),
            nodes.len() == other.len(),
            self.handles().contains(h),
            s.stored(other),
            s.root() == h,
            forall|x: u32| #[trigger]
                self.handles().contains(x) && !self.at(h).handles().contains(x) ==> other[x as int]
                    == nodes[x as int] && !s.handles().contains(x),
            Self::drawn_from(s, other, self.at(h), nodes, key),
            key matches Some(k) ==> self.leads(nodes, h, k) && self.fits(nodes, h, k),
        ensures
            self.with(h, s).stored(other),
            self.with(h, s).root() == self.root(),
            self.with(h, s).handles() == self.handles().difference(self.at(h).handles()).union(
                s.handles(),
            ),
            self.with(h, s).keys(other) == self.keys(nodes).difference(self.at(h).keys(nodes)).union(
                s.keys(other),
            ),
            self.with(h, s).leaf_count() == self.leaf_count() - self.at(h).leaf_count() + s.leaf_count(),
            Self::drawn_from(self.with(h, s), other, self, nodes, key),
        decreases self,
    {
        self.lemma_root();
        if self.root() == h {
            assert(self.with(h, s).handles() =~= self.handles().difference(
                self.at(h).handles(),
            ).union(s.handles()));
            assert(self.with(h, s).keys(other) =~= self.keys(nodes).difference(
                self.at(h).keys(nodes),
            ).union(s.keys(other)));
        } else {
            match self {
                Tree::Leaf(_) => {},
                Tree::Inner(root, l, r) => {
                    let n = nodes[root as int]->Inner_0;
                    let left = l.handles().contains(h);
                    let a = if left {
                        *l
                    } else {
                        *r
                    };
                    let o = if left {
                        *r
                    } else {
                        *l
                    };
                    a.lemma_at(nodes, h);
                    assert(self.at(h) == a.at(h));
                    assert forall|x: u32| #[trigger]
                        a.handles().contains(x) && !a.at(h).handles().contains(x) implies other[x as int]
                        == nodes[x as int] && !s.handles().contains(x) by {
                        assert(self.handles().contains(x));
                    }
                    if let Some(k) = key {
                        self.lemma_leads(nodes, h, k);
                        l.lemma_sizes(nodes);
                        r.lemma_sizes(nodes);
                        if crate::bits::bit(k, n.prefix_len) {
                            r.lemma_leads(nodes, h, k);
                        } else {
                            l.lemma_leads(nodes, h, k);
                        }
                    }
                    a.lemma_with(nodes, other, h, s, key);
                    let b = a.with(h, s);
                    assert forall|x: u32| #[trigger] o.handles().contains(x) implies other[x as int]
                        == nodes[x as int] && !s.handles().contains(x) by {
                        assert(self.handles().contains(x));
                        assert(!a.handles().contains(x));
                    }
                    o.lemma_frame(nodes, other);
                    a.lemma_sizes(nodes);
                    o.lemma_sizes(nodes);
                    b.lemma_sizes(other);
                    assert(!a.at(h).handles().contains(root));
                    assert(!o.handles().contains(root));
                    assert(b.handles().disjoint(o.handles()));
                    assert(!b.handles().contains(root));
                    assert(o.all_start(other, n.key, n.prefix_len, left)) by {
                        assert(o.all_start(nodes, n.key, n.prefix_len, left));
                    }
                    assert(b.all_start(other, n.key, n.prefix_len, !left)) by {
                        assert forall|x: u32|
                            #[trigger] b.handles().contains(x)
                                && other[x as int] is Leaf implies crate::bits::agree(
                            other[x as int]->Leaf_0.key,
                            n.key,
                            n.prefix_len,
                        ) && crate::bits::bit(other[x as int]->Leaf_0.key, n.prefix_len) == !left by {
                            let k = other[x as int]->Leaf_0.key;
                            assert(b.keys(other).contains(k));
                            if a.keys(nodes).contains(k) {
                                let y = choose|y: u32| #[trigger]
                                    a.handles().contains(y) && nodes[y as int] is Leaf
                                        && nodes[y as int]->Leaf_0.key == k;
                                assert(a.all_start(nodes, n.key, n.prefix_len, !left));
                            } else {
                                assert(key == Some(k));
                            }
                        }
                    }
                    assert(a.keys(nodes).disjoint(o.keys(nodes)));
                    a.lemma_at(nodes, h);
                    a.at(h).lemma_sizes(nodes);
                    assert forall|k: u128| #[trigger] a.at(h).keys(nodes).contains(k) implies a.keys(
                        nodes,
                    ).contains(k) by {
                        let y = choose|y: u32| #[trigger]
                            a.at(h).handles().contains(y) && nodes[y as int] is Leaf
                                && nodes[y as int]->Leaf_0.key == k;
                        assert(a.handles().contains(y));
                    }
                    assert(self.with(h, s).handles() =~= self.handles().difference(
                        self.at(h).handles(),
                    ).union(s.handles()));
                    assert(self.with(h, s).keys(other) =~= self.keys(nodes).difference(
                        self.at(h).keys(nodes),
                    ).union(s.keys(other)));
                },
            }
        }
    }

    /// The children of a node are the roots of its subtrees.
    pub proof fn lemma_child<O>(self, nodes: Seq<AnyNode<O>>, h: u32)
        requires
            self.stored(nodes),
            self.handles().contains(h),
            nodes[h as int] is Inner,
        ensures
            ({
                let n = nodes[h as int]->Inner_0;
                &&& self.at(h) matches Tree::Inner(_, l, r)
                &&& self.at(n.child(false)) == *l
                &&& self.at(n.child(true)) == *r
                &&& self.handles().contains(n.child(false))
                &&& self.handles().contains(n.child(true))
            }),
        decreases self,
    {
        let n = nodes[h as int]->Inner_0;
        match self {
            Tree::Leaf(root) => {
                assert(root == h);
                assert(nodes[root as int] is Leaf);
            },
            Tree::Inner(root, l, r) => {
                l.lemma_root();
                r.lemma_root();
                if root == h {
                    assert(l.at(l.root()) == *l);
                    assert(r.at(r.root()) == *r);
                    assert(!l.handles().contains(r.root()));
                } else if l.handles().contains(h) {
                    l.lemma_child(nodes, h);
                } else {
                    r.lemma_child(nodes, h);
                    assert(!l.handles().contains(n.child(false)));
                    assert(!l.handles().contains(n.child(true)));
                }
            },
        }
    }

    /// From left to right the keys ascend, and all of them are met.
    pub proof fn lemma_in_order<O>(self, nodes: Seq<AnyNode<O>>)
        requires
            self.stored(nodes),
        ensures
            self.in_order(nodes).len() == self.leaf_count(),
            forall|i: int, j: int|
                0 <= i < j < self.in_order(nodes).len() ==> self.in_order(nodes)[i].key < self.in_order(
                    nodes,
                )[j].key,
            forall|i: int|
                0 <= i < self.in_order(nodes).len() ==> self.holds_leaf(nodes, #[trigger] self.in_order(
                    nodes,
                )[i]),
            forall|x: u32|
                #[trigger] self.handles().contains(x) && nodes[x as int] is Leaf ==> self.in_order(
                    nodes,
                ).contains(nodes[x as int]->Leaf_0),
        decreases self,
    {
        let s = self.in_order(nodes);
        self.lemma_sizes(nodes);
        match self {
            Tree::Leaf(h) => {
                assert(self.handles().contains(h));
                assert(s[0] == nodes[h as int]->Leaf_0);
            },
            Tree::Inner(h, l, r) => {
                l.lemma_in_order(nodes);
                r.lemma_in_order(nodes);
                let n = nodes[h as int]->Inner_0;
                let a = l.in_order(nodes);
                let b = r.in_order(nodes);
                assert forall|i: int, j: int| 0 <= i < j < s.len() implies s[i].key < s[j].key by {
                    if i < a.len() && j >= a.len() {
                        assert(l.holds_leaf(nodes, a[i]));
                        assert(r.holds_leaf(nodes, b[j - a.len()]));
                        let x = choose|x: u32| #[trigger]
                            l.handles().contains(x) && nodes[x as int] == AnyNode::Leaf(a[i]);
                        let y = choose|y: u32| #[trigger]
                            r.handles().contains(y) && nodes[y as int] == AnyNode::Leaf(
                                b[j - a.len()],
                            );
                        crate::bits::lemma_agree_sym(n.key, s[j].key, n.prefix_len);
                        crate::bits::lemma_agree_trans(s[i].key, n.key, s[j].key, n.prefix_len);
                        crate::bits::lemma_first_difference_orders(s[i].key, s[j].key, n.prefix_len);
                    } else if j < a.len() {
                        assert(a[i].key < a[j].key);
                    } else {
                        assert(b[i - a.len()].key < b[j - a.len()].key);
                    }
                }
                assert forall|i: int| 0 <= i < s.len() implies self.holds_leaf(nodes, #[trigger] s[i]) by {
                    if i < a.len() {
                        assert(l.holds_leaf(nodes, a[i]));
                        let x = choose|x: u32| #[trigger]
                            l.handles().contains(x) && nodes[x as int] == AnyNode::Leaf(a[i]);
                        assert(self.handles().contains(x));
                    } else {
                        assert(r.holds_leaf(nodes, b[i - a.len()]));
                        let x = choose|x: u32| #[trigger]
                            r.handles().contains(x) && nodes[x as int] == AnyNode::Leaf(
                                b[i - a.len()],
                            );
                        assert(self.handles().contains(x));
                    }
                }
                assert forall|x: u32|
                    #[trigger] self.handles().contains(x) && nodes[x as int] is Leaf implies s.contains(
                    nodes[x as int]->Leaf_0,
                ) by {
                    if l.handles().contains(x) {
                        let i = choose|i: int| 0 <= i < a.len() && a[i] == nodes[x as int]->Leaf_0;
                        assert(s[i] == a[i]);
                    } else {
                        let i = choose|i: int| 0 <= i < b.len() && b[i] == nodes[x as int]->Leaf_0;
                        assert(s[a.len() + i] == b[i]);
                    }
                }
            },
        }
    }

    /// Whether `leaf` is one of the leaves.
    pub open spec fn holds_leaf<O>(self, nodes: Seq<AnyNode<O>>, leaf: LeafNode<O>) -> bool {
        exists|x: u32| #[trigger]
            self.handles().contains(x) && nodes[x as int] == AnyNode::Leaf(leaf)
    }
}

} // verus!
