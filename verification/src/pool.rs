//! A pool of nodes with its free list, and the map that the tree in it stands for.
use crate::crit_tree::Tree;
use crate::node::{AnyNode, CritMapHeader, FreeNode, Holder, LeafNode};
use crate::slab::SlabPageAlloc;
use vstd::prelude::*;

verus! {

/// The slots of a crit-bit map and its header.
#[verifier::ext_equal]
pub struct Pool<O> {
    pub nodes: Seq<AnyNode<O>>,
    pub head: CritMapHeader,
}

/// The first `n` handles of the free list that starts at `head`.
pub open spec fn chain<O>(nodes: Seq<AnyNode<O>>, head: u32, n: nat) -> Seq<u32>
    decreases n,
{
    if n == 0 {
        Seq::empty()
    } else {
        seq![head] + chain(nodes, nodes[head as int].next_free(), (n - 1) as nat)
    }
}

/// Slots that are not in a free list do not matter to it.
proof fn lemma_chain_frame<O>(nodes: Seq<AnyNode<O>>, other: Seq<AnyNode<O>>, head: u32, n: nat)
    requires
        forall|i: int|
            0 <= i < n ==> other[#[trigger] chain(nodes, head, n)[i] as int] == nodes[chain(
                nodes,
                head,
                n,
            )[i] as int],
    ensures
        chain(other, head, n) == chain(nodes, head, n),
        chain(nodes, head, n).len() == n,
    decreases n,
{
    if n > 0 {
        let whole = chain(nodes, head, n);
        let next = nodes[head as int].next_free();
        let rest = chain(nodes, next, (n - 1) as nat);
        assert(whole[0] == head);
        assert(other[whole[0] as int] == nodes[whole[0] as int]);
        lemma_chain_len(nodes, next, (n - 1) as nat);
        assert forall|i: int| 0 <= i < n - 1 implies other[#[trigger] rest[i] as int]
            == nodes[rest[i] as int] by {
            assert(whole[i + 1] == rest[i]);
        }
        lemma_chain_frame(nodes, other, next, (n - 1) as nat);
    }
}

proof fn lemma_chain_len<O>(nodes: Seq<AnyNode<O>>, head: u32, n: nat)
    ensures
        chain(nodes, head, n).len() == n,
    decreases n,
{
    if n > 0 {
        lemma_chain_len(nodes, nodes[head as int].next_free(), (n - 1) as nat);
    }
}

/// There are `b` handles below `b`.
proof fn lemma_handles_below(b: u32)
    ensures
        Set::new(|h: u32| h < b).finite(),
        Set::new(|h: u32| h < b).len() == b,
    decreases b,
{
    if b == 0 {
        assert(Set::new(|h: u32| h < b) =~= Set::empty());
    } else {
        let p: u32 = (b - 1) as u32;
        lemma_handles_below(p);
        assert(Set::new(|h: u32| h < b) =~= Set::new(|h: u32| h < p).insert(p));
    }
}

impl<O> Pool<O> {
    /// The free slots among those that have been used.
    pub open spec fn free(self) -> Seq<u32> {
        chain(self.nodes, self.head.free_list_head, self.head.free_list_len as nat)
    }

    /// Whether the free list is sound: its slots are different, have been used, and are marked as
    /// free, the last of them as the last.
    pub open spec fn sound(self) -> bool {
        &&& self.head.free_list_len <= self.head.bump_index <= self.nodes.len() < u32::MAX
        &&& self.free().no_duplicates()
        &&& forall|i: int|
            0 <= i < self.head.free_list_len ==> {
                let h = #[trigger] self.free()[i];
                &&& h < self.head.bump_index
                &&& if i == self.head.free_list_len - 1 {
                    self.nodes[h as int] is LastFree
                } else {
                    self.nodes[h as int] is Free
                }
            }
    }

    /// The slots that the next nodes go to, in turn: those freed last come first, and those never
    /// used come after all freed ones.
    pub open spec fn coming(self) -> Seq<u32> {
        self.free() + Seq::new(
            (self.nodes.len() - self.head.bump_index) as nat,
            |i: int| (self.head.bump_index + i) as u32,
        )
    }

    /// Whether slot `h` holds a node that has not been freed.
    pub open spec fn in_use(self, h: u32) -> bool {
        h < self.head.bump_index && !self.free().contains(h)
    }

    /// Whether `t` is the tree in the slots.
    pub open spec fn spans(self, t: Tree) -> bool {
        &&& t.stored(self.nodes)
        &&& t.root() == self.head.root_node
        &&& t.leaf_count() == self.head.leaf_count
        &&& forall|h: u32| #[trigger] t.handles().contains(h) <==> self.in_use(h)
    }

    /// Whether the slots hold a crit-bit tree and a free list, and nothing else.
    pub open spec fn wf(self) -> bool {
        &&& self.sound()
        &&& if self.head.leaf_count == 0 {
            forall|h: u32| !#[trigger] self.in_use(h)
        } else {
            exists|t: Tree| self.spans(t)
        }
    }

    /// The tree in the slots.
    pub open spec fn tree(self) -> Tree {
        choose|t: Tree| self.spans(t)
    }

    /// Whether a used slot `h` holds the leaf of `key`.
    pub open spec fn leaf_at(self, h: u32, key: u128) -> bool {
        h < self.head.bump_index && self.nodes[h as int] is Leaf && self.nodes[h as int]->Leaf_0.key
            == key
    }

    /// The slot of the leaf of `key`.
    pub open spec fn slot_of(self, key: u128) -> u32 {
        choose|h: u32| self.leaf_at(h, key)
    }

    /// The leaves by their keys.
    pub open spec fn map(self) -> Map<u128, LeafNode<O>> {
        Map::new(
            |key: u128| exists|h: u32| self.leaf_at(h, key),
            |key: u128| self.nodes[self.slot_of(key) as int]->Leaf_0,
        )
    }

    /// Whether one more node fits in.
    pub open spec fn has_slot(self) -> bool {
        self.head.free_list_len > 0 || self.head.bump_index < self.nodes.len()
    }

    /// The slot that the next node goes to.
    pub open spec fn next_slot(self) -> u32 {
        if self.head.free_list_len == 0 {
            self.head.bump_index as u32
        } else {
            self.head.free_list_head
        }
    }

    /// Whether the slot that comes next is in order: it is there, and if it was freed before, it is
    /// marked as the last free one where it is, and only there.
    pub open spec fn can_take(self) -> bool {
        if self.head.free_list_len == 0 {
            self.head.bump_index <= self.nodes.len()
        } else {
            &&& (self.head.free_list_head as int) < self.nodes.len()
            &&& if self.head.free_list_len == 1 {
                self.nodes[self.head.free_list_head as int] is LastFree
            } else {
                self.nodes[self.head.free_list_head as int] is Free
            }
        }
    }

    /// The pool with `node` added.
    pub open spec fn take(self, node: AnyNode<O>) -> Pool<O> {
        let h = self.next_slot();
        Pool {
            nodes: self.nodes.update(h as int, node),
            head: if self.head.free_list_len == 0 {
                CritMapHeader { bump_index: (self.head.bump_index + 1) as u64, ..self.head }
            } else {
                CritMapHeader {
                    free_list_len: (self.head.free_list_len - 1) as u64,
                    free_list_head: self.nodes[h as int].next_free(),
                    ..self.head
                }
            },
        }
    }

    /// The pool with slot `h` freed.
    pub open spec fn give(self, h: u32) -> Pool<O> {
        let free = FreeNode { next: self.head.free_list_head };
        Pool {
            nodes: self.nodes.update(
                h as int,
                if self.head.free_list_len == 0 {
                    AnyNode::LastFree(free)
                } else {
                    AnyNode::Free(free)
                },
            ),
            head: CritMapHeader {
                free_list_len: (self.head.free_list_len + 1) as u64,
                free_list_head: h,
                ..self.head
            },
        }
    }

    /// The pool with the node in slot `h` replaced.
    pub open spec fn put(self, h: u32, node: AnyNode<O>) -> Pool<O> {
        Pool { nodes: self.nodes.update(h as int, node), head: self.head }
    }

    /// The pool with another root and another number of leaves.
    pub open spec fn rooted(self, root_node: u32, leaf_count: u64) -> Pool<O> {
        Pool { nodes: self.nodes, head: CritMapHeader { root_node, leaf_count, ..self.head } }
    }

    pub proof fn lemma_free_len(self)
        ensures
            self.free().len() == self.head.free_list_len,
    {
        lemma_chain_len(self.nodes, self.head.free_list_head, self.head.free_list_len as nat);
    }

    /// Where the free list is sound, so is the slot that comes next.
    pub proof fn lemma_can_take(self)
        requires
            self.sound(),
        ensures
            self.can_take(),
    {
        self.lemma_free_len();
        if self.head.free_list_len > 0 {
            assert(self.free()[0] == self.head.free_list_head);
        }
    }

    /// A slot that is freed comes next, whatever the rest of the free list is like.
    pub proof fn law_freed_slot_is_next(self, h: u32)
        requires
            (h as int) < self.nodes.len(),
            self.head.free_list_len < u64::MAX,
        ensures
            self.give(h).can_take(),
            self.give(h).has_slot(),
            self.give(h).next_slot() == h,
    {
    }

    /// Adding a node puts one free slot to use.
    pub proof fn lemma_take(self, node: AnyNode<O>)
        requires
            self.sound(),
            self.has_slot(),
        ensures
            self.take(node).sound(),
            (self.next_slot() as int) < self.nodes.len(),
            !self.in_use(self.next_slot()),
            forall|h: u32| #[trigger]
                self.take(node).in_use(h) <==> self.in_use(h) || h == self.next_slot(),
            self.coming() == seq![self.next_slot()] + self.take(node).coming(),
    {
        self.lemma_free_len();
        let h = self.next_slot();
        let after = self.take(node);
        if self.head.free_list_len == 0 {
            after.lemma_free_len();
            assert(self.free() =~= Seq::empty());
            assert(after.free() =~= Seq::empty());
        } else {
            let n = self.head.free_list_len as nat;
            let rest = chain(self.nodes, self.nodes[h as int].next_free(), (n - 1) as nat);
            assert(self.free() == seq![h] + rest);
            lemma_chain_len(self.nodes, self.nodes[h as int].next_free(), (n - 1) as nat);
            assert(self.free()[0] == h);
            assert forall|i: int| 0 <= i < n - 1 implies after.nodes[#[trigger] rest[i] as int]
                == self.nodes[rest[i] as int] && rest[i] != h && rest[i] == self.free()[i + 1] by {
                assert(self.free()[i + 1] == rest[i]);
            }
            lemma_chain_frame(
                self.nodes,
                after.nodes,
                self.nodes[h as int].next_free(),
                (n - 1) as nat,
            );
            assert(after.free() == rest);
            assert forall|x: u32| self.free().contains(x) <==> x == h || #[trigger] rest.contains(x) by {
                if self.free().contains(x) && x != h {
                    let i = choose|i: int| 0 <= i < n && self.free()[i] == x;
                    assert(rest[i - 1] == x);
                }
                if rest.contains(x) {
                    let i = choose|i: int| 0 <= i < n - 1 && rest[i] == x;
                    assert(self.free()[i + 1] == x);
                }
            }
            assert(self.free().contains(h));
            assert(after.free().no_duplicates()) by {
                assert forall|i: int, j: int|
                    0 <= i < rest.len() && 0 <= j < rest.len() && i != j implies rest[i] != rest[j] by {
                    assert(self.free()[i + 1] == rest[i]);
                    assert(self.free()[j + 1] == rest[j]);
                }
            }
            assert(!rest.contains(h));
        }
        assert(self.coming() =~= seq![h] + after.coming());
    }

    /// Freeing a slot takes it out of use.
    pub proof fn lemma_give(self, h: u32)
        requires
            self.sound(),
            self.in_use(h),
        ensures
            self.give(h).sound(),
            forall|x: u32| #[trigger] self.give(h).in_use(x) <==> self.in_use(x) && x != h,
            self.head.free_list_len < self.head.bump_index,
            self.give(h).coming() == seq![h] + self.coming(),
    {
        self.lemma_free_len();
        let after = self.give(h);
        let n = self.head.free_list_len as nat;
        assert forall|i: int| 0 <= i < n implies after.nodes[#[trigger] self.free()[i] as int]
            == self.nodes[self.free()[i] as int] by {
            assert(self.free().contains(self.free()[i]));
        }
        lemma_chain_frame(self.nodes, after.nodes, self.head.free_list_head, n);
        self.lemma_used();
        assert(self.used().contains(h));
        if self.used().len() == 0 {
            self.used().lemma_len0_is_empty();
        }
        assert(after.free() == seq![h] + self.free());
        assert(after.coming() =~= seq![h] + self.coming());
        assert forall|i: int| 0 <= i < n + 1 implies {
            let x = #[trigger] after.free()[i];
            &&& x < after.head.bump_index
            &&& if i == n {
                after.nodes[x as int] is LastFree
            } else {
                after.nodes[x as int] is Free
            }
        } by {
            if i > 0 {
                assert(after.free()[i] == self.free()[i - 1]);
            }
        }
        assert(after.free().no_duplicates()) by {
            assert forall|i: int, j: int|
                0 <= i < after.free().len() && 0 <= j < after.free().len() && i != j implies after.free()[i]
                != after.free()[j] by {
                if i > 0 {
                    assert(after.free()[i] == self.free()[i - 1]);
                }
                if j > 0 {
                    assert(after.free()[j] == self.free()[j - 1]);
                }
                assert(!self.free().contains(h));
            }
        }
        assert forall|x: u32| after.free().contains(x) <==> x == h || #[trigger] self.free().contains(
            x,
        ) by {
            if after.free().contains(x) && x != h {
                let i = choose|i: int| 0 <= i < n + 1 && after.free()[i] == x;
                assert(self.free()[i - 1] == x);
            }
            if self.free().contains(x) {
                let i = choose|i: int| 0 <= i < n && self.free()[i] == x;
                assert(after.free()[i + 1] == x);
            }
            assert(after.free()[0] == h);
        }
    }

    /// Replacing a node that is in use leaves the free list as it was.
    pub proof fn lemma_put(self, h: u32, node: AnyNode<O>)
        requires
            self.sound(),
            self.in_use(h),
        ensures
            self.put(h, node).sound(),
            self.put(h, node).free() == self.free(),
            self.put(h, node).coming() == self.coming(),
            forall|x: u32| #[trigger] self.put(h, node).in_use(x) <==> self.in_use(x),
    {
        let after = self.put(h, node);
        let n = self.head.free_list_len as nat;
        self.lemma_free_len();
        assert forall|i: int| 0 <= i < n implies after.nodes[#[trigger] self.free()[i] as int]
            == self.nodes[self.free()[i] as int] by {
            assert(self.free().contains(self.free()[i]));
        }
        lemma_chain_frame(self.nodes, after.nodes, self.head.free_list_head, n);
        assert(after.coming() =~= self.coming());
    }

    /// A node fits in where a slot is to come, and goes to the first of them.
    pub proof fn lemma_coming(self)
        requires
            self.sound(),
        ensures
            self.has_slot() <==> self.coming().len() > 0,
            self.has_slot() ==> self.coming()[0] == self.next_slot(),
    {
        self.lemma_free_len();
    }

    pub open spec fn used(self) -> Set<u32> {
        Set::new(|h: u32| self.in_use(h))
    }

    /// The slots in use are those that have been used but for the free ones.
    pub proof fn lemma_used(self)
        requires
            self.sound(),
        ensures
            self.used().finite(),
            self.used().len() == self.head.bump_index - self.head.free_list_len,
    {
        self.lemma_free_len();
        let b: u32 = self.head.bump_index as u32;
        lemma_handles_below(b);
        let below = Set::new(|h: u32| h < b);
        self.free().unique_seq_to_set();
        let free = self.free().to_set();
        vstd::seq_lib::seq_to_set_is_finite(self.free());
        assert forall|h: u32| free.contains(h) implies below.contains(h) by {
            let i = choose|i: int| 0 <= i < self.free().len() && self.free()[i] == h;
            assert(self.free()[i] == h);
        }
        assert(self.used() =~= below.difference(free));
        vstd::set_lib::lemma_len_difference(below, free);
        assert(free.intersect(below) =~= free);
        vstd::set_lib::lemma_set_disjoint_lens(self.used(), free);
        assert(self.used().union(free) =~= below);
    }

    /// The map of a pool, read from its tree.
    pub proof fn lemma_map(self)
        requires
            self.wf(),
        ensures
            self.map().dom().finite(),
            self.map().dom().len() == self.head.leaf_count,
            self.head.leaf_count > 0 ==> self.spans(self.tree()) && self.map().dom() == self.tree().keys(
                self.nodes,
            ),
            forall|h: u32, key: u128| #[trigger]
                self.leaf_at(h, key) ==> self.map().contains_key(key) && self.map()[key]
                    == self.nodes[h as int]->Leaf_0,
            self.head.leaf_count > 0 ==> self.head.bump_index - self.head.free_list_len == 2
                * self.head.leaf_count - 1,
            self.head.leaf_count == 0 ==> self.head.bump_index == self.head.free_list_len
                && self.map() == Map::<u128, LeafNode<O>>::empty(),
            forall|key: u128| #[trigger] self.map().contains_key(key) ==> self.map()[key].key == key,
    {
        self.lemma_used();
        self.lemma_free_len();
        assert forall|h: u32, key: u128| #[trigger] self.leaf_at(h, key) implies self.in_use(h) by {
            if self.free().contains(h) {
                let i = choose|i: int| 0 <= i < self.free().len() && self.free()[i] == h;
                assert(self.free()[i] == h);
            }
        }
        if self.head.leaf_count == 0 {
            assert(self.used() =~= Set::empty());
            assert(self.map().dom() =~= Set::empty());
            assert(self.map() =~= Map::<u128, LeafNode<O>>::empty());
        } else {
            let t = self.tree();
            assert(self.spans(t));
            t.lemma_sizes(self.nodes);
            assert(t.handles() =~= self.used());
            assert forall|key: u128| self.map().dom().contains(key) <==> t.keys(self.nodes).contains(
                key,
            ) by {
                if self.map().dom().contains(key) {
                    let h = choose|h: u32| self.leaf_at(h, key);
                    assert(self.in_use(h));
                    assert(t.handles().contains(h));
                }
                if t.keys(self.nodes).contains(key) {
                    let h = choose|h: u32| #[trigger]
                        t.handles().contains(h) && self.nodes[h as int] is Leaf
                            && self.nodes[h as int]->Leaf_0.key == key;
                    assert(self.in_use(h));
                    assert(self.leaf_at(h, key));
                }
            }
            assert(self.map().dom() =~= t.keys(self.nodes));
            assert forall|h: u32, key: u128| #[trigger] self.leaf_at(h, key) implies self.map().contains_key(
                key,
            ) && self.map()[key] == self.nodes[h as int]->Leaf_0 by {
                let other = choose|x: u32| self.leaf_at(x, key);
                assert(self.leaf_at(other, key));
                assert(t.handles().contains(h) && t.handles().contains(other));
                if h != other {
                    t.lemma_leaves_differ(self.nodes, h, other);
                }
            }
        }
        assert forall|key: u128| #[trigger] self.map().contains_key(key) implies self.map()[key].key
            == key by {
            let h = choose|h: u32| self.leaf_at(h, key);
            assert(self.leaf_at(h, key));
        }
    }

    /// A pool that spans a tree is well formed.
    pub proof fn lemma_spans(self, t: Tree)
        requires
            self.sound(),
            self.spans(t),
        ensures
            self.wf(),
    {
        t.lemma_sizes(self.nodes);
    }
}

impl SlabPageAlloc {
    /// The pool that entry `t` holds.
    pub open spec fn pool<O: Holder>(self, t: int) -> Pool<O> {
        Pool { nodes: self.items::<AnyNode<O>>(t), head: self.header_of::<CritMapHeader>(t) }
    }
}

} // verus!
