//! What inserting and removing a leaf does to a pool and to the map it stands for.
use crate::crit_tree::Tree;
use crate::node::{AnyNode, InnerNode, LeafNode};
use crate::pool::Pool;
use vstd::prelude::*;

verus! {

impl<O> Pool<O> {
    /// The pool after the node at `cur` has become a branch over itself and the new leaf.
    pub open spec fn branched(self, leaf: LeafNode<O>, cur: u32, inner: InnerNode) -> Pool<O> {
        self.take(AnyNode::Leaf(leaf)).take(self.nodes[cur as int]).put(cur, AnyNode::Inner(inner)).rooted(
            self.head.root_node,
            (self.head.leaf_count + 1) as u64,
        )
    }

    /// Branching off a new leaf where its key first leaves the prefix of the nodes below adds the
    /// leaf to the map.
    #[verifier::rlimit(50)]
    pub proof fn lemma_branched(self, leaf: LeafNode<O>, t: Tree, cur: u32, inner: InnerNode)
        requires
            self.wf(),
            self.spans(t),
            t.leads(self.nodes, cur, leaf.key),
            t.fits(self.nodes, cur, leaf.key),
            inner.prefix_len < 128,
            inner.key == leaf.key,
            forall|k: u128| #[trigger]
                t.at(cur).keys(self.nodes).contains(k) ==> crate::bits::agree(
                    k,
                    leaf.key,
                    inner.prefix_len,
                ) && crate::bits::bit(k, inner.prefix_len) != crate::bits::bit(leaf.key, inner.prefix_len),
            self.has_slot(),
            self.take(AnyNode::Leaf(leaf)).has_slot(),
            inner.child(crate::bits::bit(leaf.key, inner.prefix_len)) == self.next_slot(),
            inner.child(!crate::bits::bit(leaf.key, inner.prefix_len)) == self.take(
                AnyNode::Leaf(leaf),
            ).next_slot(),
        ensures
            self.branched(leaf, cur, inner).wf(),
            self.branched(leaf, cur, inner).map() == self.map().insert(leaf.key, leaf),
            self.branched(leaf, cur, inner).leaf_at(self.next_slot(), leaf.key),
            !self.map().contains_key(leaf.key),
            self.coming().len() >= 2,
            self.branched(leaf, cur, inner).coming() == self.coming().skip(2),
    {
        let nodes = self.nodes;
        let b = crate::bits::bit(leaf.key, inner.prefix_len);
        let n = self.next_slot();
        let p1 = self.take(AnyNode::Leaf(leaf));
        let m = p1.next_slot();
        let p2 = p1.take(nodes[cur as int]);
        let p3 = p2.put(cur, AnyNode::Inner(inner));
        let after = self.branched(leaf, cur, inner);
        self.lemma_map();
        t.lemma_sizes(nodes);
        t.lemma_leads(nodes, cur, leaf.key);
        self.lemma_take(AnyNode::Leaf(leaf));
        p1.lemma_take(nodes[cur as int]);
        assert(self.in_use(cur));
        assert(p1.in_use(cur));
        assert(p2.in_use(cur));
        p2.lemma_put(cur, AnyNode::Inner(inner));
        assert(after.free() == p3.free());
        assert(after.sound());
        assert(p1.in_use(n));
        assert(n != m && n != cur && m != cur);
        assert(after.coming() == p3.coming());
        assert(after.coming() =~= self.coming().skip(2));
        let other = after.nodes;
        assert(other[n as int] == AnyNode::Leaf(leaf));
        assert(other[m as int] == nodes[cur as int]);
        assert(other[cur as int] == AnyNode::<O>::Inner(inner));
        assert forall|x: u32| #[trigger] t.handles().contains(x) && x != cur implies other[x as int]
            == nodes[x as int] by {
            assert(self.in_use(x));
            assert(p1.in_use(x));
        }
        let sub = t.at(cur);
        assert(!t.handles().contains(m)) by {
            if self.in_use(m) {
                assert(p1.in_use(m));
            }
        }
        sub.lemma_rooted_at(nodes, other, m);
        let moved = sub.rooted_at(m);
        let fresh = Tree::Leaf(n);
        let s = if b {
            Tree::Inner(cur, Box::new(moved), Box::new(fresh))
        } else {
            Tree::Inner(cur, Box::new(fresh), Box::new(moved))
        };
        moved.lemma_sizes(other);
        sub.lemma_sizes(nodes);
        crate::bits::lemma_agree_refl(leaf.key, inner.prefix_len);
        assert(moved.all_start(other, leaf.key, inner.prefix_len, !b));
        assert(fresh.all_start(other, leaf.key, inner.prefix_len, b));
        assert(!t.handles().contains(n));
        assert(moved.handles().disjoint(fresh.handles()));
        assert(moved.stored(other) && fresh.stored(other));
        assert(moved.root() == m && fresh.root() == n);
        assert(fresh.handles() =~= set![n]);
        assert(fresh.keys(other) =~= set![leaf.key]);
        assert(s.stored(other));
        assert(s.keys(other) =~= sub.keys(nodes).insert(leaf.key));
        assert(s.handles() =~= sub.handles().insert(n).insert(m));
        t.lemma_with(nodes, other, cur, s, Some(leaf.key));
        let whole = t.with(cur, s);
        assert(whole.handles() =~= t.handles().insert(n).insert(m));
        assert forall|h: u32| #[trigger] whole.handles().contains(h) <==> after.in_use(h) by {
            assert(p3.in_use(h) == after.in_use(h));
            assert(p2.in_use(h) <==> p1.in_use(h) || h == m);
            assert(p1.in_use(h) <==> self.in_use(h) || h == n);
            assert(t.handles().contains(h) <==> self.in_use(h));
        }
        assert(whole.root() == after.head.root_node) by {
            if t.root() == cur {
                assert(whole.root() == cur);
            }
        }
        assert(fresh.leaf_count() == 1);
        assert(s.leaf_count() == sub.leaf_count() + 1);
        assert(after.spans(whole));
        after.lemma_spans(whole);
        after.lemma_map();
        assert(p2.in_use(m));
        assert(after.leaf_at(n, leaf.key));
        assert(!sub.keys(nodes).contains(leaf.key));
        self.lemma_map_of(t);
        after.lemma_map_of(whole);
        assert(sub.keys(nodes).subset_of(t.keys(nodes))) by {
            assert forall|k: u128| sub.keys(nodes).contains(k) implies t.keys(nodes).contains(k) by {
                let y = choose|y: u32| #[trigger]
                    sub.handles().contains(y) && nodes[y as int] is Leaf && nodes[y as int]->Leaf_0.key
                        == k;
                assert(t.handles().contains(y));
            }
        }
        assert(after.map().dom() =~= self.map().insert(leaf.key, leaf).dom());
        assert forall|k: u128| #[trigger] self.map().contains_key(k) && k != leaf.key implies after.map()[k]
            == self.map()[k] by {
            let h = choose|h: u32| self.leaf_at(h, k);
            assert(self.leaf_at(h, k));
            assert(self.in_use(h)) by {
                self.lemma_leaf_in_use(h, k);
            }
            if h == cur {
                assert(after.leaf_at(m, k));
            } else {
                assert(t.handles().contains(h));
                assert(after.leaf_at(h, k));
            }
        }
        assert(after.map() =~= self.map().insert(leaf.key, leaf));
    }

    pub proof fn lemma_leaf_in_use(self, h: u32, key: u128)
        requires
            self.sound(),
            self.leaf_at(h, key),
        ensures
            self.in_use(h),
    {
        self.lemma_free_len();
        if self.free().contains(h) {
            let i = choose|i: int| 0 <= i < self.free().len() && self.free()[i] == h;
            assert(self.free()[i] == h);
        }
    }

    /// A node among the used slots that is not marked as free is in use.
    pub proof fn lemma_live_in_use(self, h: u32)
        requires
            self.sound(),
            h < self.head.bump_index,
            self.nodes[h as int].live(),
        ensures
            self.in_use(h),
    {
        self.lemma_free_len();
        if self.free().contains(h) {
            let i = choose|i: int| 0 <= i < self.free().len() && self.free()[i] == h;
            assert(self.free()[i] == h);
        }
    }

    /// A key has one slot.
    pub proof fn lemma_slot_of(self, h: u32, key: u128)
        requires
            self.wf(),
            self.leaf_at(h, key),
        ensures
            self.slot_of(key) == h,
    {
        let other = self.slot_of(key);
        self.lemma_leaf_in_use(h, key);
        self.lemma_leaf_in_use(other, key);
        let t = self.tree();
        assert(t.handles().contains(h) && t.handles().contains(other));
        if h != other {
            t.lemma_leaves_differ(self.nodes, h, other);
        }
    }

    /// The keys of the map are those of any tree that the pool spans.
    pub proof fn lemma_map_of(self, t: Tree)
        requires
            self.wf(),
            self.spans(t),
        ensures
            self.map().dom() == t.keys(self.nodes),
    {
        self.lemma_map();
        t.lemma_sizes(self.nodes);
        assert forall|key: u128| self.map().dom().contains(key) <==> t.keys(self.nodes).contains(key) by {
            if self.map().dom().contains(key) {
                let h = choose|h: u32| self.leaf_at(h, key);
                self.lemma_leaf_in_use(h, key);
                assert(t.handles().contains(h));
            }
            if t.keys(self.nodes).contains(key) {
                let h = choose|h: u32| #[trigger]
                    t.handles().contains(h) && self.nodes[h as int] is Leaf
                        && self.nodes[h as int]->Leaf_0.key == key;
                assert(self.in_use(h));
                assert(self.leaf_at(h, key));
            }
        }
        assert(self.map().dom() =~= t.keys(self.nodes));
    }

    /// The first leaf of an empty map.
    pub proof fn lemma_first_leaf(self, leaf: LeafNode<O>)
        requires
            self.wf(),
            self.head.leaf_count == 0,
            self.has_slot(),
        ensures
            ({
                let after = self.take(AnyNode::Leaf(leaf)).rooted(self.next_slot(), 1);
                &&& after.wf()
                &&& after.map() == self.map().insert(leaf.key, leaf)
                &&& after.leaf_at(self.next_slot(), leaf.key)
                &&& !self.map().contains_key(leaf.key)
                &&& after.coming() == self.coming().skip(1)
            }),
    {
        let n = self.next_slot();
        let p1 = self.take(AnyNode::Leaf(leaf));
        let after = p1.rooted(n, 1);
        self.lemma_map();
        self.lemma_take(AnyNode::Leaf(leaf));
        assert(after.free() == p1.free());
        assert(after.sound());
        assert(after.coming() == p1.coming());
        assert(after.coming() =~= self.coming().skip(1));
        let t = Tree::Leaf(n);
        assert forall|h: u32| #[trigger] t.handles().contains(h) <==> after.in_use(h) by {
            assert(p1.in_use(h) == after.in_use(h));
        }
        assert(after.spans(t));
        after.lemma_spans(t);
        after.lemma_map();
        after.lemma_map_of(t);
        assert(p1.in_use(n));
        assert(after.leaf_at(n, leaf.key));
        assert(after.map() =~= self.map().insert(leaf.key, leaf));
    }

    /// A leaf put in the place of the leaf with the same key.
    pub proof fn lemma_clobbered(self, leaf: LeafNode<O>, cur: u32)
        requires
            self.wf(),
            self.head.leaf_count > 0,
            self.in_use(cur),
            self.nodes[cur as int] is Leaf,
            self.nodes[cur as int]->Leaf_0.key == leaf.key,
        ensures
            self.put(cur, AnyNode::Leaf(leaf)).wf(),
            self.put(cur, AnyNode::Leaf(leaf)).map() == self.map().insert(leaf.key, leaf),
            self.put(cur, AnyNode::Leaf(leaf)).leaf_at(cur, leaf.key),
            self.map().contains_key(leaf.key),
            self.map()[leaf.key] == self.nodes[cur as int]->Leaf_0,
            self.put(cur, AnyNode::Leaf(leaf)).coming() == self.coming(),
    {
        let after = self.put(cur, AnyNode::Leaf(leaf));
        let t = self.tree();
        self.lemma_map();
        self.lemma_put(cur, AnyNode::Leaf(leaf));
        assert(t.handles().contains(cur));
        t.lemma_at(self.nodes, cur);
        let s = Tree::Leaf(cur);
        assert(t.at(cur) == s);
        t.lemma_with(self.nodes, after.nodes, cur, s, None);
        let whole = t.with(cur, s);
        assert(whole.handles() =~= t.handles());
        assert(after.spans(whole));
        after.lemma_spans(whole);
        after.lemma_map();
        after.lemma_map_of(whole);
        assert(self.leaf_at(cur, leaf.key));
        assert(after.leaf_at(cur, leaf.key));
        assert(t.keys(self.nodes).contains(leaf.key));
        assert(after.map().dom() =~= self.map().insert(leaf.key, leaf).dom());
        assert forall|k: u128| #[trigger] self.map().contains_key(k) && k != leaf.key implies after.map()[k]
            == self.map()[k] by {
            let h = choose|h: u32| self.leaf_at(h, k);
            assert(self.leaf_at(h, k));
            assert(after.leaf_at(h, k));
        }
        assert(after.map() =~= self.map().insert(leaf.key, leaf));
    }

    /// Freeing the slot of a node that was just added leaves the map as it was.
    pub proof fn lemma_undone(self, node: AnyNode<O>)
        requires
            self.wf(),
            self.has_slot(),
        ensures
            self.take(node).give(self.next_slot()).wf(),
            self.take(node).give(self.next_slot()).map() == self.map(),
            self.take(node).give(self.next_slot()).coming() == self.coming(),
    {
        let n = self.next_slot();
        let p1 = self.take(node);
        let after = p1.give(n);
        self.lemma_take(node);
        assert(p1.in_use(n));
        p1.lemma_give(n);
        assert forall|h: u32| #[trigger] after.in_use(h) <==> self.in_use(h) by {
            assert(p1.in_use(h) <==> self.in_use(h) || h == n);
        }
        if self.head.leaf_count > 0 {
            let t = self.tree();
            assert(self.spans(t));
            assert forall|x: u32| #[trigger] t.handles().contains(x) implies after.nodes[x as int]
                == self.nodes[x as int] by {
                assert(self.in_use(x));
            }
            t.lemma_frame(self.nodes, after.nodes);
            assert(after.spans(t));
            after.lemma_spans(t);
        }
        self.lemma_map();
        after.lemma_map();
        self.lemma_same_leaves(after);
    }

    /// Pools with the same nodes in use stand for the same map.
    pub proof fn lemma_same_leaves(self, other: Pool<O>)
        requires
            self.wf(),
            other.wf(),
            forall|h: u32| #[trigger] other.in_use(h) <==> self.in_use(h),
            forall|h: u32| #[trigger] self.in_use(h) ==> other.nodes[h as int] == self.nodes[h as int],
        ensures
            other.map() == self.map(),
    {
        self.lemma_map();
        other.lemma_map();
        assert forall|k: u128| #![auto] self.map().contains_key(k) implies other.map().contains_key(k)
            && other.map()[k] == self.map()[k] by {
            let h = choose|h: u32| self.leaf_at(h, k);
            assert(self.leaf_at(h, k));
            self.lemma_leaf_in_use(h, k);
            assert(other.in_use(h));
            assert(other.leaf_at(h, k));
        }
        assert forall|k: u128| #![auto] other.map().contains_key(k) implies self.map().contains_key(k) by {
            let h = choose|h: u32| other.leaf_at(h, k);
            assert(other.leaf_at(h, k));
            other.lemma_leaf_in_use(h, k);
            assert(self.in_use(h));
            assert(self.leaf_at(h, k));
        }
        assert(other.map() =~= self.map());
    }

    /// Removing the only leaf empties the map.
    pub proof fn lemma_last_removed(self)
        requires
            self.wf(),
            self.head.leaf_count > 0,
            self.nodes[self.head.root_node as int] is Leaf,
        ensures
            ({
                let root = self.head.root_node;
                let leaf = self.nodes[root as int]->Leaf_0;
                let after = self.rooted(0, 0).give(root);
                &&& self.in_use(root)
                &&& self.rooted(0, 0).sound()
                &&& self.rooted(0, 0).in_use(root)
                &&& self.head.leaf_count == 1
                &&& after.wf()
                &&& self.map() == Map::<u128, LeafNode<O>>::empty().insert(leaf.key, leaf)
                &&& after.map() == self.map().remove(leaf.key)
                &&& after.map() == Map::<u128, LeafNode<O>>::empty()
                &&& self.leaf_at(root, leaf.key)
                &&& after.coming() == seq![root] + self.coming()
            }),
    {
        let root = self.head.root_node;
        let leaf = self.nodes[root as int]->Leaf_0;
        let t = self.tree();
        self.lemma_map();
        assert(t == Tree::Leaf(root));
        assert(t.handles().contains(root));
        let p1 = self.rooted(0, 0);
        assert(p1.free() == self.free());
        assert(p1.in_use(root));
        p1.lemma_give(root);
        assert(p1.coming() == self.coming());
        let after = p1.give(root);
        assert forall|h: u32| !#[trigger] after.in_use(h) by {
            assert(p1.in_use(h) == self.in_use(h));
            assert(t.handles().contains(h) <==> self.in_use(h));
        }
        after.lemma_map();
        assert(self.leaf_at(root, leaf.key));
        assert(self.map() =~= Map::<u128, LeafNode<O>>::empty().insert(leaf.key, leaf));
        assert(after.map() =~= self.map().remove(leaf.key));
    }

    /// The pool after leaf `c` is gone and its sibling `o` has taken the place of their parent.
    pub open spec fn pruned(self, parent: u32, c: u32, o: u32) -> Pool<O> {
        self.give(o).put(parent, self.nodes[o as int]).rooted(
            self.head.root_node,
            (self.head.leaf_count - 1) as u64,
        ).give(c)
    }

    /// Removing a leaf and putting its sibling in the place of their parent removes its key from
    /// the map.
    #[verifier::rlimit(50)]
    pub proof fn lemma_pruned(self, t: Tree, parent: u32, key: u128)
        requires
            self.wf(),
            self.head.leaf_count > 0,
            self.spans(t),
            t.leads(self.nodes, parent, key),
            self.nodes[parent as int] is Inner,
            ({
                let n = self.nodes[parent as int]->Inner_0;
                let c = n.child(crate::bits::bit(key, n.prefix_len));
                self.nodes[c as int] is Leaf && self.nodes[c as int]->Leaf_0.key == key
            }),
        ensures
            ({
                let n = self.nodes[parent as int]->Inner_0;
                let b = crate::bits::bit(key, n.prefix_len);
                let c = n.child(b);
                let o = n.child(!b);
                let after = self.pruned(parent, c, o);
                let p1 = self.give(o);
                let p2 = p1.put(parent, self.nodes[o as int]);
                let p3 = p2.rooted(self.head.root_node, (self.head.leaf_count - 1) as u64);
                &&& self.in_use(o)
                &&& p1.sound()
                &&& p2.sound()
                &&& p3.sound()
                &&& p3.in_use(c)
                &&& p1.in_use(parent)
                &&& self.head.leaf_count >= 2
                &&& p3.nodes[c as int] == self.nodes[c as int]
                &&& p1.nodes[parent as int] == self.nodes[parent as int]
                &&& (c as int) < self.nodes.len()
                &&& (o as int) < self.nodes.len()
                &&& self.nodes[o as int].live()
                &&& after.wf()
                &&& after.map() == self.map().remove(key)
                &&& self.map().contains_key(key)
                &&& self.map()[key] == self.nodes[c as int]->Leaf_0
                &&& self.leaf_at(c, key)
                &&& c != o
                &&& after.coming() == seq![c, o] + self.coming()
            }),
    {
        let nodes = self.nodes;
        let n = nodes[parent as int]->Inner_0;
        let b = crate::bits::bit(key, n.prefix_len);
        let c = n.child(b);
        let o = n.child(!b);
        self.lemma_map();
        t.lemma_sizes(nodes);
        t.lemma_leads(nodes, parent, key);
        t.lemma_step(nodes, parent, key);
        let sub = t.at(parent);
        let (l, r) = match sub {
            Tree::Inner(_, l, r) => (*l, *r),
            _ => (sub, sub),
        };
        let kept = if b {
            l
        } else {
            r
        };
        let gone = if b {
            r
        } else {
            l
        };
        l.lemma_root();
        r.lemma_root();
        assert(gone.root() == c && kept.root() == o);
        assert(gone.stored(nodes) && kept.stored(nodes));
        assert(gone == Tree::Leaf(c));
        assert(gone.handles() =~= set![c]);
        assert(sub.handles() =~= kept.handles().insert(c).insert(parent));
        assert(t.handles().contains(c) && t.handles().contains(o) && t.handles().contains(parent));
        assert(self.in_use(o) && self.in_use(c) && self.in_use(parent));
        let p1 = self.give(o);
        self.lemma_give(o);
        assert(p1.in_use(parent) && p1.in_use(c));
        let p2 = p1.put(parent, nodes[o as int]);
        p1.lemma_put(parent, nodes[o as int]);
        assert(p2.in_use(c));
        let p3 = p2.rooted(self.head.root_node, (self.head.leaf_count - 1) as u64);
        assert(p3.free() == p2.free());
        assert(p3.sound());
        assert(p3.in_use(c));
        p3.lemma_give(c);
        let after = self.pruned(parent, c, o);
        assert(p3.coming() == p2.coming());
        assert(after.coming() =~= seq![c, o] + self.coming());
        let other = after.nodes;
        assert(c != o && c != parent && o != parent);
        assert(other[parent as int] == nodes[o as int]);
        assert forall|x: u32| x != c && x != o && x != parent && (x as int) < nodes.len() implies #[trigger] other[x as int]
            == nodes[x as int] by {}
        assert forall|x: u32| #[trigger] kept.handles().contains(x) && x != o implies other[x as int]
            == nodes[x as int] by {
            assert(sub.handles().contains(x));
            assert(t.handles().contains(x));
        }
        kept.lemma_rooted_at(nodes, other, parent);
        let s = kept.rooted_at(parent);
        kept.lemma_sizes(nodes);
        gone.lemma_sizes(nodes);
        sub.lemma_sizes(nodes);
        assert forall|x: u32| #[trigger]
            t.handles().contains(x) && !sub.handles().contains(x) implies other[x as int] == nodes[x as int]
            && !s.handles().contains(x) by {}
        assert(Tree::drawn_from(s, other, sub, nodes, None));
        t.lemma_with(nodes, other, parent, s, None);
        let whole = t.with(parent, s);
        assert(whole.handles() =~= t.handles().remove(c).remove(o));
        assert forall|h: u32| #[trigger] whole.handles().contains(h) <==> after.in_use(h) by {
            assert(after.in_use(h) <==> p3.in_use(h) && h != c);
            assert(p3.in_use(h) == p2.in_use(h));
            assert(p2.in_use(h) == p1.in_use(h));
            assert(p1.in_use(h) <==> self.in_use(h) && h != o);
            assert(t.handles().contains(h) <==> self.in_use(h));
        }
        assert(after.spans(whole));
        after.lemma_spans(whole);
        after.lemma_map();
        self.lemma_map_of(t);
        after.lemma_map_of(whole);
        assert(self.leaf_at(c, key));
        assert(gone.keys(nodes) =~= set![key]);
        assert(sub.keys(nodes) =~= kept.keys(nodes).insert(key));
        assert(!kept.keys(nodes).contains(key)) by {
            if kept.keys(nodes).contains(key) {
                let y = choose|y: u32| #[trigger]
                    kept.handles().contains(y) && nodes[y as int] is Leaf
                        && nodes[y as int]->Leaf_0.key == key;
                assert(sub.handles().contains(y));
                sub.lemma_leaves_differ(nodes, y, c);
            }
        }
        assert(kept.keys(nodes).subset_of(t.keys(nodes))) by {
            assert forall|k: u128| kept.keys(nodes).contains(k) implies t.keys(nodes).contains(k) by {
                let y = choose|y: u32| #[trigger]
                    kept.handles().contains(y) && nodes[y as int] is Leaf && nodes[y as int]->Leaf_0.key
                        == k;
                assert(sub.handles().contains(y));
                assert(t.handles().contains(y));
            }
        }
        assert(after.map().dom() =~= self.map().remove(key).dom());
        assert forall|k: u128| #[trigger] self.map().contains_key(k) && k != key implies after.map()[k]
            == self.map()[k] by {
            let h = choose|h: u32| self.leaf_at(h, k);
            assert(self.leaf_at(h, k));
            self.lemma_leaf_in_use(h, k);
            assert(h != c && h != parent);
            if h == o {
                assert(after.leaf_at(parent, k));
            } else {
                assert(after.leaf_at(h, k));
            }
        }
        assert(after.map() =~= self.map().remove(key));
    }
}

} // verus!
