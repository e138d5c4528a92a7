//! Crit-bit maps from 128-bit keys to leaves, kept in the pages of a slab.
use crate::bits::shared_prefix_len;
use crate::node::{AnyNode, CritMapHeader, FreeNode, Holder, InnerNode, LeafNode, NodeHandle};
use crate::slab::SlabPageAlloc;
use vstd::prelude::*;

verus! {

/// Why a leaf could not be inserted.
#[derive(Debug)]
pub enum SlabTreeError {
    OutOfSpace,
}

/// The operations on the nodes of entry `type_id` of a slab.
pub struct CritMapData {}

impl SlabPageAlloc {
    /// Whether entry `t` holds a crit-bit map.
    pub open spec fn has_map<O: Holder>(self, t: int) -> bool {
        self.laid_out::<CritMapHeader, AnyNode<O>>(t) && self.pool::<O>(t).wf()
    }

    /// The map that entry `t` holds.
    pub open spec fn map<O: Holder>(self, t: int) -> Map<u128, LeafNode<O>> {
        self.pool::<O>(t).map()
    }

    /// How many nodes the map of entry `t` can have.
    pub open spec fn slots<O: Holder>(self, t: int) -> nat {
        self.items::<AnyNode<O>>(t).len()
    }

    /// Whether a map of `len` leaves over `slots` slots takes one more leaf: `n` leaves need
    /// `2 n - 1` nodes.
    pub open spec fn takes_one_more(len: nat, slots: nat) -> bool {
        2 * len + 1 <= slots
    }

    /// Pages with an empty head hold an empty map, and all their slots are to come in turn.
    pub proof fn law_blank_map<O: Holder>(self, t: int)
        requires
            self.laid_out::<CritMapHeader, AnyNode<O>>(t),
            self.header_of::<CritMapHeader>(t) == CritMapHeader::empty(),
        ensures
            self.has_map::<O>(t),
            self.map::<O>(t) == Map::<u128, LeafNode<O>>::empty(),
            self.pool::<O>(t).coming() == Seq::new(self.slots::<O>(t), |i: int| i as u32),
    {
        self.lemma_usable::<CritMapHeader, AnyNode<O>>(t);
        let pool = self.pool::<O>(t);
        pool.lemma_free_len();
        assert(pool.sound());
        assert forall|h: u32| !#[trigger] pool.in_use(h) by {}
        pool.lemma_map();
        assert(pool.coming() =~= Seq::new(self.slots::<O>(t), |i: int| i as u32));
    }

    /// Whether a new leaf goes to slot `h`, the first of those to come, where the map had `len`
    /// leaves: after the first leaf, a branch takes a slot as well.
    pub open spec fn goes_to_next(len: nat, coming: Seq<u32>, h: u32, after: Seq<u32>) -> bool {
        let taken: int = if len == 0 {
            1
        } else {
            2
        };
        taken <= coming.len() && h == coming[0] && after == coming.skip(taken)
    }

    /// Whether slot `h`, whose leaf is removed, is the first to come afterwards: after it, unless
    /// the leaf was the only one, comes the slot of its sibling, which has moved to their parent's.
    pub open spec fn comes_back<O>(pool: crate::pool::Pool<O>, h: u32, after: Seq<u32>) -> bool {
        if pool.map().len() == 1 {
            after == seq![h] + pool.coming()
        } else {
            exists|o: u32| #[trigger] pool.in_use(o) && o != h && after == seq![h, o] + pool.coming()
        }
    }
}

impl CritMapData {
    /// How many slots there are.
    pub fn len<O: Holder>(slab: &SlabPageAlloc, type_id: u16) -> (r: usize)
        requires
            slab.laid_out::<CritMapHeader, AnyNode<O>>(type_id as int),
        ensures
            r == slab.pool::<O>(type_id as int).nodes.len(),
    {
        slab.usable_len::<CritMapHeader, AnyNode<O>>(type_id)
    }

    pub fn header<O: Holder>(slab: &SlabPageAlloc, type_id: u16) -> (r: CritMapHeader)
        requires
            slab.laid_out::<CritMapHeader, AnyNode<O>>(type_id as int),
        ensures
            r == slab.pool::<O>(type_id as int).head,
    {
        slab.get_header::<CritMapHeader, AnyNode<O>>(type_id)
    }

    pub fn header_mut<O: Holder>(slab: &mut SlabPageAlloc, type_id: u16, header: &CritMapHeader)
        requires
            old(slab).laid_out::<CritMapHeader, AnyNode<O>>(type_id as int),
        ensures
            final(slab).laid_out::<CritMapHeader, AnyNode<O>>(type_id as int),
            final(slab).pool::<O>(type_id as int).nodes == old(slab).pool::<O>(type_id as int).nodes,
            final(slab).pool::<O>(type_id as int).head == *header,
            old(slab).same_but::<AnyNode<O>>(*final(slab), type_id as int),
    {
        slab.set_header::<CritMapHeader, AnyNode<O>>(type_id, header);
    }

    pub fn index<O: Holder>(slab: &SlabPageAlloc, type_id: u16, idx: usize) -> (r: AnyNode<O>)
        requires
            slab.laid_out::<CritMapHeader, AnyNode<O>>(type_id as int),
            idx < slab.pool::<O>(type_id as int).nodes.len(),
        ensures
            r == slab.pool::<O>(type_id as int).nodes[idx as int],
    {
        slab.get::<CritMapHeader, AnyNode<O>>(type_id, idx)
    }

    pub fn index_mut<O: Holder>(slab: &mut SlabPageAlloc, type_id: u16, idx: usize, node: &AnyNode<O>)
        requires
            old(slab).laid_out::<CritMapHeader, AnyNode<O>>(type_id as int),
            idx < old(slab).pool::<O>(type_id as int).nodes.len(),
        ensures
            final(slab).laid_out::<CritMapHeader, AnyNode<O>>(type_id as int),
            final(slab).pool::<O>(type_id as int).nodes == old(slab).pool::<O>(type_id as int).nodes.update(
                idx as int,
                *node,
            ),
            final(slab).pool::<O>(type_id as int).head == old(slab).pool::<O>(type_id as int).head,
            old(slab).same_but::<AnyNode<O>>(*final(slab), type_id as int),
    {
        slab.set::<CritMapHeader, AnyNode<O>>(type_id, idx, node);
    }

    /// Puts a node into a free slot.
    pub fn take<O: Holder>(slab: &mut SlabPageAlloc, type_id: u16, node: &AnyNode<O>) -> (r: Result<u32, ()>)
        requires
            old(slab).laid_out::<CritMapHeader, AnyNode<O>>(type_id as int),
            old(slab).pool::<O>(type_id as int).can_take(),
            node.live(),
        ensures
            final(slab).laid_out::<CritMapHeader, AnyNode<O>>(type_id as int),
            r is Ok <==> old(slab).pool::<O>(type_id as int).has_slot(),
            r is Err ==> *final(slab) == *old(slab),
            r matches Ok(h) ==> h == old(slab).pool::<O>(type_id as int).next_slot() && final(slab).pool::<O>(
                type_id as int,
            ) == old(slab).pool::<O>(type_id as int).take(*node),
            old(slab).same_but::<AnyNode<O>>(*final(slab), type_id as int),
    {
        proof {
            slab.lemma_usable::<CritMapHeader, AnyNode<O>>(type_id as int);
        }
        let len: usize = CritMapData::len::<O>(slab, type_id);
        let mut header: CritMapHeader = CritMapData::header::<O>(slab, type_id);
        if header.free_list_len == 0 {
            if header.bump_index == len as u64 {
                return Err(());
            }
            let key: u32 = header.bump_index as u32;
            header.bump_index = header.bump_index + 1;
            CritMapData::header_mut::<O>(slab, type_id, &header);
            CritMapData::index_mut::<O>(slab, type_id, key as usize, node);
            return Ok(key);
        }
        let key: u32 = header.free_list_head;
        let free_node: AnyNode<O> = CritMapData::index::<O>(slab, type_id, key as usize);
        let next: u32 = match free_node {
            AnyNode::Free(n) => n.next,
            AnyNode::LastFree(n) => n.next,
            _ => 0,
        };
        header.free_list_head = next;
        header.free_list_len = header.free_list_len - 1;
        CritMapData::header_mut::<O>(slab, type_id, &header);
        CritMapData::index_mut::<O>(slab, type_id, key as usize, node);
        Ok(key)
    }

    /// Frees the slot of a node.
    pub fn give<O: Holder>(slab: &mut SlabPageAlloc, type_id: u16, key: u32) -> (r: Option<AnyNode<O>>)
        requires
            old(slab).laid_out::<CritMapHeader, AnyNode<O>>(type_id as int),
            key < old(slab).pool::<O>(type_id as int).nodes.len(),
            old(slab).pool::<O>(type_id as int).head.free_list_len < u64::MAX,
        ensures
            final(slab).laid_out::<CritMapHeader, AnyNode<O>>(type_id as int),
            r == if old(slab).pool::<O>(type_id as int).nodes[key as int].live() {
                Some(old(slab).pool::<O>(type_id as int).nodes[key as int])
            } else {
                None
            },
            r is None ==> *final(slab) == *old(slab),
            r is Some ==> final(slab).pool::<O>(type_id as int) == old(slab).pool::<O>(type_id as int).give(key),
            old(slab).same_but::<AnyNode<O>>(*final(slab), type_id as int),
    {
        let val: AnyNode<O> = CritMapData::index::<O>(slab, type_id, key as usize);
        match val {
            AnyNode::Inner(_) | AnyNode::Leaf(_) => {},
            _ => {
                return None;
            },
        }
        let mut header: CritMapHeader = CritMapData::header::<O>(slab, type_id);
        let free = FreeNode { next: header.free_list_head };
        let free_node: AnyNode<O> = if header.free_list_len == 0 {
            AnyNode::LastFree(free)
        } else {
            AnyNode::Free(free)
        };
        CritMapData::index_mut::<O>(slab, type_id, key as usize, &free_node);
        header.free_list_len = header.free_list_len + 1;
        header.free_list_head = key;
        CritMapData::header_mut::<O>(slab, type_id, &header);
        Some(val)
    }

    /// The root of the tree.
    pub fn root<O: Holder>(slab: &SlabPageAlloc, type_id: u16) -> (r: Option<NodeHandle>)
        requires
            slab.laid_out::<CritMapHeader, AnyNode<O>>(type_id as int),
        ensures
            r == if slab.pool::<O>(type_id as int).head.leaf_count == 0 {
                None
            } else {
                Some(slab.pool::<O>(type_id as int).head.root_node)
            },
    {
        let header: CritMapHeader = CritMapData::header::<O>(slab, type_id);
        if header.leaf_count == 0 {
            return None;
        }
        Some(header.root_node)
    }

    /// The slot of the leaf with a key.
    pub fn find_by_key<O: Holder>(slab: &SlabPageAlloc, type_id: u16, search_key: u128) -> (r: Option<NodeHandle>)
        requires
            slab.has_map::<O>(type_id as int),
        ensures
            r is Some <==> slab.map::<O>(type_id as int).contains_key(search_key),
            r matches Some(h) ==> h == slab.pool::<O>(type_id as int).slot_of(search_key) && slab.pool::<O>(
                type_id as int,
            ).leaf_at(h, search_key) && slab.pool::<O>(type_id as int).nodes[h as int]->Leaf_0 == slab.map::<O>(
                type_id as int,
            )[search_key] && h < slab.slots::<O>(type_id as int),
    {
        let ghost pool = slab.pool::<O>(type_id as int);
        let ghost nodes = pool.nodes;
        let ghost t = pool.tree();
        proof {
            pool.lemma_map();
        }
        let mut node_handle: NodeHandle = match CritMapData::root::<O>(slab, type_id) {
            Some(h) => h,
            None => {
                return None;
            },
        };
        loop
            invariant
                slab.laid_out::<CritMapHeader, AnyNode<O>>(type_id as int),
                pool == slab.pool::<O>(type_id as int),
                pool.wf(),
                pool.head.leaf_count > 0,
                nodes == pool.nodes,
                t == pool.tree(),
                pool.spans(t),
                pool.map().dom() == t.keys(nodes),
                t.leads(nodes, node_handle, search_key),
            decreases t.at(node_handle),
        {
            proof {
                pool.lemma_map();
                t.lemma_sizes(nodes);
                t.lemma_leads(nodes, node_handle, search_key);
                assert(pool.in_use(node_handle));
                t.at(node_handle).lemma_sizes(nodes);
            }
            let node: AnyNode<O> = CritMapData::index::<O>(slab, type_id, node_handle as usize);
            match node {
                AnyNode::Leaf(leaf) => {
                    proof {
                        assert(t.at(node_handle) == crate::crit_tree::Tree::Leaf(node_handle));
                    }
                    if leaf.key != search_key {
                        return None;
                    }
                    proof {
                        assert(pool.leaf_at(node_handle, search_key));
                        pool.lemma_slot_of(node_handle, search_key);
                    }
                    return Some(node_handle);
                },
                AnyNode::Inner(inner) => {
                    let common: u32 = shared_prefix_len(search_key, inner.key);
                    proof {
                        t.lemma_step(nodes, node_handle, search_key);
                        if common < inner.prefix_len {
                            Self::lemma_off_prefix(t.at(node_handle), nodes, search_key, common);
                        }
                    }
                    if common < inner.prefix_len {
                        return None;
                    }
                    node_handle = inner.walk_down(search_key).0;
                },
                _ => {
                    return None;
                },
            }
        }
    }

    /// Keys that leave the prefix of a branch early differ from all keys below it.
    proof fn lemma_off_prefix<O: Holder>(t: crate::crit_tree::Tree, nodes: Seq<AnyNode<O>>, key: u128, n: u32)
        requires
            t.stored(nodes),
            nodes[t.root() as int] is Inner,
            n < nodes[t.root() as int]->Inner_0.prefix_len,
            crate::bits::agree(key, nodes[t.root() as int]->Inner_0.key, n),
            crate::bits::bit(key, n) != crate::bits::bit(nodes[t.root() as int]->Inner_0.key, n),
        ensures
            forall|k: u128| #[trigger]
                t.keys(nodes).contains(k) ==> crate::bits::agree(k, key, n) && crate::bits::bit(k, n)
                    != crate::bits::bit(key, n),
    {
        let inner = nodes[t.root() as int]->Inner_0;
        t.lemma_sizes(nodes);
        assert forall|k: u128| #[trigger] t.keys(nodes).contains(k) implies crate::bits::agree(k, key, n)
            && crate::bits::bit(k, n) != crate::bits::bit(key, n) by {
            let x = choose|x: u32| #[trigger]
                t.handles().contains(x) && nodes[x as int] is Leaf && nodes[x as int]->Leaf_0.key == k;
            match t {
                crate::crit_tree::Tree::Leaf(_) => {},
                crate::crit_tree::Tree::Inner(_, l, r) => {
                    assert(l.handles().contains(x) || r.handles().contains(x));
                    assert(crate::bits::agree(k, inner.key, inner.prefix_len));
                },
            }
            crate::bits::lemma_agree_bit(k, inner.key, inner.prefix_len, n);
            crate::bits::lemma_agree_shorter(k, inner.key, n, inner.prefix_len);
            crate::bits::lemma_agree_sym(inner.key, key, n);
            crate::bits::lemma_agree_trans(k, inner.key, key, n);
        }
    }

    /// The leaf with a key.
    pub fn get_key<O: Holder>(slab: &SlabPageAlloc, type_id: u16, search_key: u128) -> (r: Option<LeafNode<O>>)
        requires
            slab.has_map::<O>(type_id as int),
        ensures
            r == slab.map::<O>(type_id as int).get(search_key),
    {
        match CritMapData::find_by_key::<O>(slab, type_id, search_key) {
            Some(h) => CritMapData::index::<O>(slab, type_id, h as usize).as_leaf(),
            None => None,
        }
    }

    /// Inserts a leaf. A leaf with the same key is replaced and returned.
    #[verifier::rlimit(40)]
    pub fn insert_leaf<O: Holder>(slab: &mut SlabPageAlloc, type_id: u16, new_leaf: &LeafNode<O>) -> (r: Result<
        (NodeHandle, Option<LeafNode<O>>),
        SlabTreeError,
    >)
        requires
            old(slab).has_map::<O>(type_id as int),
        ensures
            final(slab).has_map::<O>(type_id as int),
            old(slab).same_but::<AnyNode<O>>(*final(slab), type_id as int),
            r is Ok <==> old(slab).map::<O>(type_id as int).contains_key(new_leaf.key)
                || SlabPageAlloc::takes_one_more(
                old(slab).map::<O>(type_id as int).len(),
                old(slab).slots::<O>(type_id as int),
            ),
            r is Err ==> final(slab).map::<O>(type_id as int) == old(slab).map::<O>(type_id as int) && final(slab).pool::<O>(
                type_id as int,
            ).coming() == old(slab).pool::<O>(type_id as int).coming(),
            r matches Ok((h, replaced)) ==> {
                &&& final(slab).map::<O>(type_id as int) == old(slab).map::<O>(type_id as int).insert(
                    new_leaf.key,
                    *new_leaf,
                )
                &&& replaced == old(slab).map::<O>(type_id as int).get(new_leaf.key)
                &&& final(slab).pool::<O>(type_id as int).leaf_at(h, new_leaf.key)
                &&& h == final(slab).pool::<O>(type_id as int).slot_of(new_leaf.key)
                &&& replaced is Some ==> h == old(slab).pool::<O>(type_id as int).slot_of(new_leaf.key)
                    && final(slab).pool::<O>(type_id as int).coming() == old(slab).pool::<O>(
                    type_id as int,
                ).coming()
                &&& replaced is None ==> SlabPageAlloc::goes_to_next(
                    old(slab).map::<O>(type_id as int).len(),
                    old(slab).pool::<O>(type_id as int).coming(),
                    h,
                    final(slab).pool::<O>(type_id as int).coming(),
                )
            },
    {
        let ghost pool = slab.pool::<O>(type_id as int);
        let ghost nodes = pool.nodes;
        let ghost t = pool.tree();
        proof {
            pool.lemma_map();
            pool.lemma_can_take();
        }
        let mut root: NodeHandle = match CritMapData::root::<O>(slab, type_id) {
            Some(h) => h,
            None => {
                match CritMapData::take::<O>(slab, type_id, &AnyNode::Leaf(*new_leaf)) {
                    Ok(handle) => {
                        let mut header: CritMapHeader = CritMapData::header::<O>(slab, type_id);
                        header.root_node = handle;
                        header.leaf_count = 1;
                        CritMapData::header_mut::<O>(slab, type_id, &header);
                        proof {
                            pool.lemma_first_leaf(*new_leaf);
                            pool.lemma_coming();
                            let after = pool.take(AnyNode::Leaf(*new_leaf)).rooted(handle, 1);
                            assert(slab.pool::<O>(type_id as int) == after);
                            after.lemma_slot_of(handle, new_leaf.key);
                        }
                        return Ok((handle, None));
                    },
                    Err(()) => {
                        return Err(SlabTreeError::OutOfSpace);
                    },
                }
            },
        };
        loop
            invariant
                slab.laid_out::<CritMapHeader, AnyNode<O>>(type_id as int),
                *slab == *old(slab),
                pool == slab.pool::<O>(type_id as int),
                pool.wf(),
                pool.head.leaf_count > 0,
                nodes == pool.nodes,
                t == pool.tree(),
                pool.spans(t),
                pool.map().dom() == t.keys(nodes),
                t.leads(nodes, root, new_leaf.key),
                t.fits(nodes, root, new_leaf.key),
            decreases t.at(root),
        {
            proof {
                pool.lemma_map();
                t.lemma_sizes(nodes);
                t.lemma_leads(nodes, root, new_leaf.key);
                assert(pool.in_use(root));
                t.at(root).lemma_sizes(nodes);
            }
            let root_contents: AnyNode<O> = CritMapData::index::<O>(slab, type_id, root as usize);
            let shared: u32;
            match root_contents {
                AnyNode::Leaf(leaf) => {
                    assert(t.at(root) == crate::crit_tree::Tree::Leaf(root));
                    if leaf.key == new_leaf.key {
                        CritMapData::index_mut::<O>(slab, type_id, root as usize, &AnyNode::Leaf(*new_leaf));
                        proof {
                            pool.lemma_clobbered(*new_leaf, root);
                            let after = pool.put(root, AnyNode::Leaf(*new_leaf));
                            assert(slab.pool::<O>(type_id as int) == after);
                            pool.lemma_slot_of(root, new_leaf.key);
                            after.lemma_slot_of(root, new_leaf.key);
                        }
                        return Ok((root, Some(leaf)));
                    }
                    shared = shared_prefix_len(leaf.key, new_leaf.key);
                    assert(t.at(root).keys(nodes) =~= set![leaf.key]);
                },
                AnyNode::Inner(inner) => {
                    shared = shared_prefix_len(inner.key, new_leaf.key);
                    proof {
                        crate::bits::lemma_agree_sym(inner.key, new_leaf.key, shared);
                    }
                    if shared >= inner.prefix_len {
                        proof {
                            t.lemma_step(nodes, root, new_leaf.key);
                            crate::bits::lemma_agree_shorter(
                                new_leaf.key,
                                inner.key,
                                inner.prefix_len,
                                shared,
                            );
                        }
                        root = inner.walk_down(new_leaf.key).0;
                        continue;
                    }
                    proof {
                        Self::lemma_off_prefix(t.at(root), nodes, new_leaf.key, shared);
                    }
                },
                _ => {
                    assert(false);
                    return Err(SlabTreeError::OutOfSpace);
                },
            }
            assert(shared < 128);
            assert(!t.at(root).keys(nodes).contains(new_leaf.key));
            proof {
                pool.lemma_can_take();
            }
            let new_leaf_crit_bit: bool = crate::bits::bit_at(new_leaf.key, shared);
            let new_leaf_handle: NodeHandle = match CritMapData::take::<O>(
                slab,
                type_id,
                &AnyNode::Leaf(*new_leaf),
            ) {
                Ok(h) => h,
                Err(()) => {
                    return Err(SlabTreeError::OutOfSpace);
                },
            };
            let ghost taken = slab.pool::<O>(type_id as int);
            proof {
                pool.lemma_take(AnyNode::Leaf(*new_leaf));
                taken.lemma_can_take();
                assert(taken.in_use(root));
            }
            let moved_root_handle: NodeHandle = match CritMapData::take::<O>(slab, type_id, &root_contents) {
                Ok(h) => h,
                Err(()) => {
                    CritMapData::give::<O>(slab, type_id, new_leaf_handle);
                    proof {
                        pool.lemma_undone(AnyNode::Leaf(*new_leaf));
                    }
                    return Err(SlabTreeError::OutOfSpace);
                },
            };
            proof {
                taken.lemma_take(root_contents);
            }
            let children: [u32; 2] = if new_leaf_crit_bit {
                [moved_root_handle, new_leaf_handle]
            } else {
                [new_leaf_handle, moved_root_handle]
            };
            let new_root = InnerNode { key: new_leaf.key, prefix_len: shared, children };
            CritMapData::index_mut::<O>(slab, type_id, root as usize, &AnyNode::Inner(new_root));
            let mut header: CritMapHeader = CritMapData::header::<O>(slab, type_id);
            assert(header.leaf_count == pool.head.leaf_count);
            header.leaf_count = header.leaf_count + 1;
            CritMapData::header_mut::<O>(slab, type_id, &header);
            proof {
                pool.lemma_branched(*new_leaf, t, root, new_root);
                pool.lemma_coming();
                let after = pool.branched(*new_leaf, root, new_root);
                assert(slab.pool::<O>(type_id as int) == after);
                after.lemma_slot_of(new_leaf_handle, new_leaf.key);
            }
            return Ok((new_leaf_handle, None));
        }
    }

    /// Removes the leaf with a key and returns it.
    pub fn remove_by_key<O: Holder>(slab: &mut SlabPageAlloc, type_id: u16, search_key: u128) -> (r: Option<LeafNode<O>>)
        requires
            old(slab).has_map::<O>(type_id as int),
        ensures
            final(slab).has_map::<O>(type_id as int),
            old(slab).same_but::<AnyNode<O>>(*final(slab), type_id as int),
            r == old(slab).map::<O>(type_id as int).get(search_key),
            final(slab).map::<O>(type_id as int) == old(slab).map::<O>(type_id as int).remove(search_key),
            r is None ==> *final(slab) == *old(slab),
            r is Some ==> SlabPageAlloc::comes_back(
                old(slab).pool::<O>(type_id as int),
                old(slab).pool::<O>(type_id as int).slot_of(search_key),
                final(slab).pool::<O>(type_id as int).coming(),
            ),
    {
        let ghost pool = slab.pool::<O>(type_id as int);
        let ghost nodes = pool.nodes;
        let ghost t = pool.tree();
        proof {
            pool.lemma_map();
            if !pool.map().contains_key(search_key) {
                assert(pool.map().remove(search_key) =~= pool.map());
            }
        }
        let mut parent_h: NodeHandle = match CritMapData::root::<O>(slab, type_id) {
            Some(h) => h,
            None => {
                return None;
            },
        };
        proof {
            t.lemma_sizes(nodes);
            t.lemma_leads(nodes, parent_h, search_key);
        }
        let first: AnyNode<O> = CritMapData::index::<O>(slab, type_id, parent_h as usize);
        let mut parent: InnerNode = match first {
            AnyNode::Leaf(leaf) => {
                proof {
                    pool.lemma_last_removed();
                }
                if leaf.key != search_key {
                    return None;
                }
                let mut header: CritMapHeader = CritMapData::header::<O>(slab, type_id);
                header.root_node = 0;
                header.leaf_count = 0;
                CritMapData::header_mut::<O>(slab, type_id, &header);
                assert(slab.pool::<O>(type_id as int) == pool.rooted(0, 0));
                CritMapData::give::<O>(slab, type_id, parent_h);
                assert(slab.pool::<O>(type_id as int) == pool.rooted(0, 0).give(parent_h));
                proof {
                    pool.lemma_slot_of(parent_h, search_key);
                }
                return Some(leaf);
            },
            AnyNode::Inner(inner) => inner,
            _ => {
                assert(false);
                return None;
            },
        };
        proof {
            t.lemma_step(nodes, parent_h, search_key);
        }
        let mut step: (NodeHandle, bool) = parent.walk_down(search_key);
        let leaf: LeafNode<O>;
        loop
            invariant_except_break
                slab.laid_out::<CritMapHeader, AnyNode<O>>(type_id as int),
                *slab == *old(slab),
                pool == slab.pool::<O>(type_id as int),
                pool.wf(),
                pool.head.leaf_count > 0,
                nodes == pool.nodes,
                t == pool.tree(),
                pool.spans(t),
                pool.map().dom() == t.keys(nodes),
                !pool.map().contains_key(search_key) ==> pool.map().remove(search_key) == pool.map(),
                t.leads(nodes, parent_h, search_key),
                nodes[parent_h as int] == AnyNode::<O>::Inner(parent),
                parent.prefix_len < 128,
                step.1 == crate::bits::bit(search_key, parent.prefix_len),
                step.0 == parent.child(step.1),
                t.leads(nodes, step.0, search_key),
            ensures
                slab.laid_out::<CritMapHeader, AnyNode<O>>(type_id as int),
                *slab == *old(slab),
                pool == slab.pool::<O>(type_id as int),
                pool.wf(),
                pool.head.leaf_count > 0,
                pool.spans(t),
                nodes == pool.nodes,
                t.leads(nodes, parent_h, search_key),
                nodes[parent_h as int] == AnyNode::<O>::Inner(parent),
                step.1 == crate::bits::bit(search_key, parent.prefix_len),
                step.0 == parent.child(step.1),
                nodes[step.0 as int] == AnyNode::Leaf(leaf),
                leaf.key == search_key,
            decreases t.at(step.0),
        {
            proof {
                t.lemma_sizes(nodes);
                t.lemma_leads(nodes, step.0, search_key);
                t.at(step.0).lemma_sizes(nodes);
            }
            let node: AnyNode<O> = CritMapData::index::<O>(slab, type_id, step.0 as usize);
            match node {
                AnyNode::Inner(inner) => {
                    proof {
                        t.lemma_step(nodes, step.0, search_key);
                    }
                    parent_h = step.0;
                    parent = inner;
                    step = inner.walk_down(search_key);
                },
                AnyNode::Leaf(found) => {
                    assert(t.at(step.0) == crate::crit_tree::Tree::Leaf(step.0));
                    if found.key != search_key {
                        return None;
                    }
                    leaf = found;
                    break;
                },
                _ => {
                    assert(false);
                    return None;
                },
            }
        }
        proof {
            pool.lemma_pruned(t, parent_h, search_key);
            pool.lemma_map();
        }
        let child_h: NodeHandle = step.0;
        let other_child_h: NodeHandle = if step.1 {
            parent.children[0]
        } else {
            parent.children[1]
        };
        let ghost p1 = pool.give(other_child_h);
        let ghost p2 = p1.put(parent_h, nodes[other_child_h as int]);
        let ghost p3 = p2.rooted(pool.head.root_node, (pool.head.leaf_count - 1) as u64);
        let other_child: AnyNode<O> = CritMapData::index::<O>(slab, type_id, other_child_h as usize);
        CritMapData::give::<O>(slab, type_id, other_child_h);
        assert(slab.pool::<O>(type_id as int) == p1);
        CritMapData::index_mut::<O>(slab, type_id, parent_h as usize, &other_child);
        assert(slab.pool::<O>(type_id as int) == p2);
        let mut header: CritMapHeader = CritMapData::header::<O>(slab, type_id);
        header.leaf_count = header.leaf_count - 1;
        CritMapData::header_mut::<O>(slab, type_id, &header);
        assert(slab.pool::<O>(type_id as int) == p3);
        CritMapData::give::<O>(slab, type_id, child_h);
        assert(slab.pool::<O>(type_id as int) == pool.pruned(parent_h, child_h, other_child_h));
        proof {
            pool.lemma_slot_of(child_h, search_key);
            assert(pool.in_use(other_child_h));
        }
        Some(leaf)
    }

    /// The slot of the leaf with the smallest or the largest key.
    pub fn find_min_max<O: Holder>(slab: &SlabPageAlloc, type_id: u16, find_max: bool) -> (r: Option<NodeHandle>)
        requires
            slab.has_map::<O>(type_id as int),
        ensures
            r is Some <==> slab.map::<O>(type_id as int).len() > 0,
            r matches Some(h) ==> {
                &&& h < slab.slots::<O>(type_id as int)
                &&& slab.pool::<O>(type_id as int).nodes[h as int] matches AnyNode::Leaf(leaf)
                &&& slab.pool::<O>(type_id as int).leaf_at(h, leaf.key)
                &&& h == slab.pool::<O>(type_id as int).slot_of(leaf.key)
                &&& slab.map::<O>(type_id as int).contains_key(leaf.key)
                &&& slab.map::<O>(type_id as int)[leaf.key] == leaf
                &&& forall|k: u128| #[trigger]
                    slab.map::<O>(type_id as int).contains_key(k) ==> if find_max {
                        k <= leaf.key
                    } else {
                        leaf.key <= k
                    }
            },
    {
        let ghost pool = slab.pool::<O>(type_id as int);
        let ghost nodes = pool.nodes;
        let ghost t = pool.tree();
        let ghost all = t.in_order(nodes);
        proof {
            pool.lemma_map();
        }
        let mut root: NodeHandle = match CritMapData::root::<O>(slab, type_id) {
            Some(h) => h,
            None => {
                return None;
            },
        };
        proof {
            t.lemma_root();
            t.lemma_in_order(nodes);
        }
        loop
            invariant
                slab.laid_out::<CritMapHeader, AnyNode<O>>(type_id as int),
                pool == slab.pool::<O>(type_id as int),
                pool.wf(),
                pool.head.leaf_count > 0,
                nodes == pool.nodes,
                t == pool.tree(),
                pool.spans(t),
                all == t.in_order(nodes),
                pool.map().dom() == t.keys(nodes),
                t.handles().contains(root),
                t.at(root).in_order(nodes).len() > 0,
                find_max ==> t.at(root).in_order(nodes).last() == all.last(),
                !find_max ==> t.at(root).in_order(nodes)[0] == all[0],
            decreases t.at(root),
        {
            proof {
                pool.lemma_map();
                t.lemma_sizes(nodes);
                t.lemma_at(nodes, root);
                assert(pool.in_use(root));
            }
            let node: AnyNode<O> = CritMapData::index::<O>(slab, type_id, root as usize);
            match node {
                AnyNode::Inner(inner) => {
                    proof {
                        t.lemma_child(nodes, root);
                        t.lemma_at(nodes, inner.child(false));
                        t.lemma_at(nodes, inner.child(true));
                        t.at(inner.child(false)).lemma_sizes(nodes);
                        t.at(inner.child(true)).lemma_sizes(nodes);
                    }
                    root = if find_max {
                        inner.children[1]
                    } else {
                        inner.children[0]
                    };
                },
                _ => {
                    proof {
                        let leaf = node->Leaf_0;
                        assert(t.at(root) == crate::crit_tree::Tree::Leaf(root));
                        assert(pool.leaf_at(root, leaf.key));
                        pool.lemma_slot_of(root, leaf.key);
                        t.lemma_in_order(nodes);
                        assert forall|k: u128| #[trigger] pool.map().contains_key(k) implies if find_max {
                            k <= leaf.key
                        } else {
                            leaf.key <= k
                        } by {
                            let x = choose|x: u32| #[trigger]
                                t.handles().contains(x) && nodes[x as int] is Leaf
                                    && nodes[x as int]->Leaf_0.key == k;
                            let i = choose|i: int| 0 <= i < all.len() && all[i] == nodes[x as int]->Leaf_0;
                            assert(all[i].key == k);
                        }
                        assert(pool.map().dom().contains(leaf.key));
                        if pool.map().len() == 0 {
                            pool.map().dom().lemma_len0_is_empty();
                        }
                    }
                    return Some(root);
                },
            }
        }
    }

    /// Appends the leaves at or below a node from left to right.
    fn walk<O: Holder>(
        slab: &SlabPageAlloc,
        type_id: u16,
        sub_root: NodeHandle,
        buf: &mut Vec<LeafNode<O>>,
        sub: Ghost<crate::crit_tree::Tree>,
    )
        requires
            slab.laid_out::<CritMapHeader, AnyNode<O>>(type_id as int),
            sub@.stored(slab.pool::<O>(type_id as int).nodes),
            sub@.root() == sub_root,
        ensures
            final(buf)@ == old(buf)@ + sub@.in_order(slab.pool::<O>(type_id as int).nodes),
        decreases sub@,
    {
        let ghost nodes = slab.pool::<O>(type_id as int).nodes;
        let node: AnyNode<O> = CritMapData::index::<O>(slab, type_id, sub_root as usize);
        match node {
            AnyNode::Inner(inner) => {
                let ghost (l, r) = match sub@ {
                    crate::crit_tree::Tree::Inner(_, l, r) => (*l, *r),
                    _ => (sub@, sub@),
                };
                CritMapData::walk::<O>(slab, type_id, inner.children[0], buf, Ghost(l));
                CritMapData::walk::<O>(slab, type_id, inner.children[1], buf, Ghost(r));
                assert(buf@ =~= old(buf)@ + sub@.in_order(nodes));
            },
            AnyNode::Leaf(leaf) => {
                buf.push(leaf);
                assert(buf@ =~= old(buf)@ + sub@.in_order(nodes));
            },
            _ => {},
        }
    }

    /// All leaves in ascending order of their keys.
    pub fn traverse<O: Holder>(slab: &SlabPageAlloc, type_id: u16) -> (r: Vec<LeafNode<O>>)
        requires
            slab.has_map::<O>(type_id as int),
        ensures
            r@ == crate::sorted::in_order(slab.map::<O>(type_id as int)),
            r@.len() == slab.map::<O>(type_id as int).len(),
    {
        let ghost pool = slab.pool::<O>(type_id as int);
        let mut buf: Vec<LeafNode<O>> = Vec::new();
        proof {
            pool.lemma_map();
        }
        match CritMapData::root::<O>(slab, type_id) {
            Some(r) => {
                CritMapData::walk::<O>(slab, type_id, r, &mut buf, Ghost(pool.tree()));
                proof {
                    Self::lemma_tree_order(pool);
                    pool.tree().lemma_sizes(pool.nodes);
                    assert(buf@ =~= pool.tree().in_order(pool.nodes));
                }
            },
            None => {
                proof {
                    assert(crate::sorted::lists(Seq::empty(), pool.map().dom()));
                    crate::sorted::lemma_ascending(Seq::empty(), pool.map().dom());
                    assert(buf@ =~= crate::sorted::in_order(pool.map()));
                }
            },
        }
        buf
    }

    proof fn lemma_tree_order<O: Holder>(pool: crate::pool::Pool<O>)
        requires
            pool.wf(),
            pool.head.leaf_count > 0,
        ensures
            pool.tree().in_order(pool.nodes) == crate::sorted::in_order(pool.map()),
    {
        let t = pool.tree();
        let nodes = pool.nodes;
        let s = t.in_order(nodes);
        pool.lemma_map();
        t.lemma_sizes(nodes);
        t.lemma_in_order(nodes);
        let keys = Seq::new(s.len(), |i: int| s[i].key);
        assert forall|k: u128| #[trigger] pool.map().dom().contains(k) <==> keys.contains(k) by {
            if pool.map().dom().contains(k) {
                let x = choose|x: u32| #[trigger]
                    t.handles().contains(x) && nodes[x as int] is Leaf && nodes[x as int]->Leaf_0.key == k;
                let i = choose|i: int| 0 <= i < s.len() && s[i] == nodes[x as int]->Leaf_0;
                assert(keys[i] == k);
            }
            if keys.contains(k) {
                let i = choose|i: int| 0 <= i < keys.len() && keys[i] == k;
                assert(t.holds_leaf(nodes, s[i]));
            }
        }
        crate::sorted::lemma_ascending(keys, pool.map().dom());
        assert forall|i: int| 0 <= i < s.len() implies s[i] == #[trigger] pool.map()[keys[i]] by {
            assert(t.holds_leaf(nodes, s[i]));
            let x = choose|x: u32| #[trigger]
                t.handles().contains(x) && nodes[x as int] == AnyNode::Leaf(s[i]);
            assert(pool.in_use(x));
            assert(pool.leaf_at(x, keys[i]));
        }
        assert(s =~= crate::sorted::in_order(pool.map()));
    }
}

} // verus!
