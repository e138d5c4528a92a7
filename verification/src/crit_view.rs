//! A crit-bit map as a value that borrows its slab.
use crate::crit_map::{CritMapData, SlabTreeError};
use crate::hash::hash_bytes;
use crate::node::{AnyNode, CritMapHeader, LeafNode, Nobody, NodeHandle};
use crate::pool::Pool;
use crate::slab::SlabPageAlloc;
use vstd::prelude::*;

verus! {

/// The crit-bit map of entry `type_id` of a slab.
#[derive(Debug)]
pub struct CritMap<'a> {
    pub slab: &'a mut SlabPageAlloc,
    pub type_id: u16,
    pub capacity: u32,
}

/// A pool of nodes that are found by their handles.
pub trait CritMapView<T> {
    /// What the slots hold.
    spec fn nodes(&self) -> Seq<T>;

    /// The head of the pool.
    spec fn head(&self) -> CritMapHeader;

    /// Whether the slots can be read and written.
    spec fn ready(&self) -> bool;

    /// Whether the free list is sound.
    spec fn sound(&self) -> bool;

    /// Whether the slot that comes next is in order.
    spec fn can_insert(&self) -> bool;

    /// Whether a slot holds a node.
    spec fn live(node: T) -> bool;

    /// Whether there is a free slot, and which comes next.
    spec fn free_slot(&self) -> Option<u32>;

    /// The handle of the slot after `h` in the free list.
    spec fn next_free(&self, h: u32) -> u32;

    spec fn spec_capacity(&self) -> u64;

    fn capacity(&self) -> (r: u64)
        ensures
            r == self.spec_capacity(),
    ;

    fn clear(&mut self)
        requires
            old(self).ready(),
        ensures
            final(self).ready(),
            final(self).nodes() == old(self).nodes(),
            final(self).head() == CritMapHeader::empty(),
            final(self).can_insert(),
    ;

    fn is_empty(&self) -> (r: bool)
        requires
            self.ready(),
        ensures
            r == (self.head().bump_index == self.head().free_list_len),
    ;

    fn get(&self, h: NodeHandle) -> (r: Option<T>)
        requires
            self.ready(),
            h < self.nodes().len(),
        ensures
            r == if Self::live(self.nodes()[h as int]) {
                Some(self.nodes()[h as int])
            } else {
                None
            },
    ;

    /// Replaces the node in a slot, if there is one, and says whether there was.
    fn get_mut(&mut self, h: NodeHandle, node: &T) -> (r: bool)
        requires
            old(self).ready(),
            h < old(self).nodes().len(),
        ensures
            final(self).ready(),
            final(self).head() == old(self).head(),
            r == Self::live(old(self).nodes()[h as int]),
            final(self).nodes() == if r {
                old(self).nodes().update(h as int, *node)
            } else {
                old(self).nodes()
            },
    ;

    /// Puts a node into a free slot.
    fn insert(&mut self, val: &T) -> (r: Result<u32, ()>)
        requires
            old(self).ready(),
            old(self).can_insert(),
            Self::live(*val),
        ensures
            final(self).ready(),
            r is Ok <==> old(self).free_slot() is Some,
            r is Err ==> final(self).nodes() == old(self).nodes() && final(self).head() == old(
                self,
            ).head(),
            r matches Ok(h) ==> old(self).free_slot() == Some(h) && final(self).nodes() == old(
                self,
            ).nodes().update(h as int, *val) && (old(self).sound() ==> final(self).sound()) && final(self).head() == if old(self).head().free_list_len == 0 {
                CritMapHeader { bump_index: (h + 1) as u64, ..old(self).head() }
            } else {
                CritMapHeader {
                    free_list_len: (old(self).head().free_list_len - 1) as u64,
                    free_list_head: old(self).next_free(h),
                    ..old(self).head()
                }
            },
    ;

    /// Frees the slot of a node and returns the node.
    fn remove(&mut self, h: NodeHandle) -> (r: Option<T>)
        requires
            old(self).ready(),
            h < old(self).nodes().len(),
            old(self).head().free_list_len < u64::MAX,
        ensures
            final(self).ready(),
            r == if Self::live(old(self).nodes()[h as int]) {
                Some(old(self).nodes()[h as int])
            } else {
                None
            },
            r is None ==> final(self).nodes() == old(self).nodes() && final(self).head() == old(
                self,
            ).head(),
            r is Some ==> {
                &&& final(self).nodes().len() == old(self).nodes().len()
                &&& forall|i: int|
                    0 <= i < old(self).nodes().len() && i != h ==> final(self).nodes()[i] == old(
                        self,
                    ).nodes()[i]
                &&& !Self::live(final(self).nodes()[h as int])
                &&& final(self).can_insert()
                &&& final(self).free_slot() == Some(h)
                &&& final(self).next_free(h) == old(self).head().free_list_head
                &&& final(self).head() == (CritMapHeader {
                    free_list_len: (old(self).head().free_list_len + 1) as u64,
                    free_list_head: h,
                    ..old(self).head()
                })
            },
    ;

    fn contains(&self, h: NodeHandle) -> (r: bool)
        requires
            self.ready(),
            h < self.nodes().len(),
        ensures
            r == Self::live(self.nodes()[h as int]),
    ;
}

impl<'a> CritMap<'a> {
    /// The nodes of the map in their slots.
    pub open spec fn pool(&self) -> Pool<Nobody> {
        self.slab.pool::<Nobody>(self.type_id as int)
    }

    /// The map.
    pub open spec fn map(&self) -> Map<u128, LeafNode> {
        self.slab.map::<Nobody>(self.type_id as int)
    }

    /// Whether the slab holds a crit-bit map at this entry.
    pub open spec fn wf(&self) -> bool {
        self.slab.has_map::<Nobody>(self.type_id as int)
    }

    /// The slot of the leaf with a key.
    pub open spec fn slot_of(&self, key: u128) -> NodeHandle {
        self.slab.pool::<Nobody>(self.type_id as int).slot_of(key)
    }

    /// The slots that the next nodes go to, in turn: those freed last first, then those never used.
    pub open spec fn coming(&self) -> Seq<NodeHandle> {
        self.slab.pool::<Nobody>(self.type_id as int).coming()
    }

    /// How many nodes the map can have.
    pub open spec fn slots(&self) -> nat {
        self.slab.slots::<Nobody>(self.type_id as int)
    }

    /// Whether `self` and `other` are the same map on the same slab, but for what the map's own
    /// pages hold.
    pub open spec fn same_place(&self, other: &CritMap<'a>) -> bool {
        &&& other.type_id == self.type_id
        &&& other.capacity == self.capacity
        &&& self.slab.same_but::<AnyNode>(*other.slab, self.type_id as int)
    }
}

impl<'a> CritMapView<AnyNode> for CritMap<'a> {
    open spec fn nodes(&self) -> Seq<AnyNode> {
        self.slab.pool::<Nobody>(self.type_id as int).nodes
    }

    open spec fn head(&self) -> CritMapHeader {
        self.slab.pool::<Nobody>(self.type_id as int).head
    }

    open spec fn ready(&self) -> bool {
        self.slab.laid_out::<CritMapHeader, AnyNode>(self.type_id as int)
    }

    open spec fn sound(&self) -> bool {
        self.slab.pool::<Nobody>(self.type_id as int).sound()
    }

    open spec fn can_insert(&self) -> bool {
        self.slab.pool::<Nobody>(self.type_id as int).can_take()
    }

    open spec fn live(node: AnyNode) -> bool {
        node.live()
    }

    open spec fn free_slot(&self) -> Option<u32> {
        if self.slab.pool::<Nobody>(self.type_id as int).has_slot() {
            Some(self.slab.pool::<Nobody>(self.type_id as int).next_slot())
        } else {
            None
        }
    }

    open spec fn next_free(&self, h: u32) -> u32 {
        self.slab.pool::<Nobody>(self.type_id as int).nodes[h as int].next_free()
    }

    open spec fn spec_capacity(&self) -> u64 {
        self.capacity as u64
    }

    fn capacity(&self) -> (r: u64) {
        self.capacity as u64
    }

    fn clear(&mut self)
        ensures
            old(self).same_place(final(self)),
            *final(final(self).slab) == *final(old(self).slab),
            final(self).wf(),
            final(self).map() == Map::<u128, LeafNode>::empty(),
            final(self).coming() == Seq::new(old(self).slots(), |i: int| i as u32),
    {
        CritMapData::header_mut::<Nobody>(self.slab, self.type_id, &CritMapHeader::new());
        proof {
            self.slab.law_blank_map::<Nobody>(self.type_id as int);
        }
    }

    fn is_empty(&self) -> (r: bool) {
        let header: CritMapHeader = CritMapData::header::<Nobody>(self.slab, self.type_id);
        header.bump_index == header.free_list_len
    }

    fn get(&self, h: NodeHandle) -> (r: Option<AnyNode>) {
        let node: AnyNode = CritMapData::index::<Nobody>(self.slab, self.type_id, h as usize);
        match node {
            AnyNode::Inner(_) | AnyNode::Leaf(_) => Some(node),
            _ => None,
        }
    }

    fn get_mut(&mut self, h: NodeHandle, node: &AnyNode) -> (r: bool)
        ensures
            old(self).same_place(final(self)),
            *final(final(self).slab) == *final(old(self).slab),
            !r ==> *final(self).slab == *old(self).slab,
            old(self).sound() && h < old(self).head().bump_index && r ==> final(self).sound()
                && final(self).can_insert() && final(self).coming() == old(self).coming(),
    {
        proof {
            let pool = self.pool();
            if pool.sound() && h < pool.head.bump_index && pool.nodes[h as int].live() {
                pool.lemma_live_in_use(h);
                pool.lemma_put(h, *node);
                pool.put(h, *node).lemma_can_take();
            }
        }
        let old_node: AnyNode = CritMapData::index::<Nobody>(self.slab, self.type_id, h as usize);
        match old_node {
            AnyNode::Inner(_) | AnyNode::Leaf(_) => {
                CritMapData::index_mut::<Nobody>(self.slab, self.type_id, h as usize, node);
                true
            },
            _ => false,
        }
    }

    fn insert(&mut self, val: &AnyNode) -> (r: Result<u32, ()>)
        ensures
            old(self).same_place(final(self)),
            *final(final(self).slab) == *final(old(self).slab),
            r is Err ==> *final(self).slab == *old(self).slab,
            r is Ok ==> final(self).pool() == old(self).pool().take(*val),
            old(self).sound() ==> {
                &&& r is Ok <==> old(self).coming().len() > 0
                &&& final(self).can_insert()
                &&& r matches Ok(h) ==> h == old(self).coming()[0] && final(self).coming() == old(self).coming().skip(1)
            },
    {
        proof {
            let pool = self.pool();
            self.slab.lemma_usable::<CritMapHeader, AnyNode>(self.type_id as int);
            if pool.sound() {
                pool.lemma_coming();
                if pool.has_slot() {
                    pool.lemma_take(*val);
                    pool.take(*val).lemma_can_take();
                    assert(pool.coming().skip(1) =~= pool.take(*val).coming());
                }
            }
        }
        CritMapData::take::<Nobody>(self.slab, self.type_id, val)
    }

    fn remove(&mut self, h: NodeHandle) -> (r: Option<AnyNode>)
        ensures
            old(self).same_place(final(self)),
            *final(final(self).slab) == *final(old(self).slab),
            r is None ==> *final(self).slab == *old(self).slab,
            r is Some ==> final(self).pool() == old(self).pool().give(h),
            old(self).sound() && h < old(self).head().bump_index && r is Some ==> final(self).sound()
                && final(self).coming() == seq![h] + old(self).coming(),
    {
        proof {
            let pool = self.pool();
            if pool.sound() && h < pool.head.bump_index && pool.nodes[h as int].live() {
                pool.lemma_live_in_use(h);
                pool.lemma_give(h);
            }
            pool.law_freed_slot_is_next(h);
        }
        CritMapData::give::<Nobody>(self.slab, self.type_id, h)
    }

    fn contains(&self, h: NodeHandle) -> (r: bool) {
        self.get(h).is_some()
    }
}

impl<'a> CritMap<'a> {
    /// The key of a text: the hash of its bytes.
    pub fn str_hash(inp: String) -> (r: u128)
        ensures
            r == crate::hash::murmur3_128(vstd::utf8::encode_utf8(inp@), 0),
    {
        hash_bytes(inp.as_str().as_bytes())
    }

    /// The key of some bytes: their hash.
    pub fn bytes_hash(inp: &[u8]) -> (r: u128)
        ensures
            r == crate::hash::murmur3_128(inp@, 0),
    {
        hash_bytes(inp)
    }

    /// The slot of the leaf with the smallest key.
    pub fn find_min(&self) -> (r: Option<NodeHandle>)
        requires
            self.wf(),
        ensures
            r is Some <==> self.map().len() > 0,
            r matches Some(h) ==> {
                &&& h < self.slots()
                &&& self.nodes()[h as int] matches AnyNode::Leaf(leaf)
                &&& self.map().contains_key(leaf.key)
                &&& self.map()[leaf.key] == leaf
                &&& forall|k: u128| #[trigger] self.map().contains_key(k) ==> leaf.key <= k
                &&& leaf == crate::sorted::in_order(self.map())[0]
                &&& h == self.slot_of(leaf.key)
                &&& self.pool().leaf_at(h, leaf.key)
            },
    {
        proof {
            self.lemma_ends();
        }
        CritMapData::find_min_max::<Nobody>(self.slab, self.type_id, false)
    }

    /// The slot of the leaf with the largest key.
    pub fn find_max(&self) -> (r: Option<NodeHandle>)
        requires
            self.wf(),
        ensures
            r is Some <==> self.map().len() > 0,
            r matches Some(h) ==> {
                &&& h < self.slots()
                &&& self.nodes()[h as int] matches AnyNode::Leaf(leaf)
                &&& self.map().contains_key(leaf.key)
                &&& self.map()[leaf.key] == leaf
                &&& forall|k: u128| #[trigger] self.map().contains_key(k) ==> k <= leaf.key
                &&& leaf == crate::sorted::in_order(self.map()).last()
                &&& h == self.slot_of(leaf.key)
                &&& self.pool().leaf_at(h, leaf.key)
            },
    {
        proof {
            self.lemma_ends();
        }
        CritMapData::find_min_max::<Nobody>(self.slab, self.type_id, true)
    }

    /// Inserts a leaf. A leaf with the same key is replaced, in its slot, and returned.
    pub fn insert_leaf(&mut self, new_leaf: &LeafNode) -> (r: Result<
        (NodeHandle, Option<LeafNode>),
        SlabTreeError,
    >)
        requires
            old(self).wf(),
        ensures
            final(self).wf(),
            old(self).same_place(final(self)),
            *final(final(self).slab) == *final(old(self).slab),
            r is Ok <==> old(self).map().contains_key(new_leaf.key) || SlabPageAlloc::takes_one_more(
                old(self).map().len(),
                old(self).slots(),
            ),
            r is Err ==> final(self).map() == old(self).map() && final(self).coming() == old(
                self,
            ).coming(),
            r matches Ok((h, replaced)) ==> {
                &&& final(self).map() == old(self).map().insert(new_leaf.key, *new_leaf)
                &&& replaced == old(self).map().get(new_leaf.key)
                &&& final(self).pool().leaf_at(h, new_leaf.key)
                &&& h == final(self).slot_of(new_leaf.key)
                &&& replaced is Some ==> h == old(self).slot_of(new_leaf.key) && final(self).coming()
                    == old(self).coming()
                &&& replaced is None ==> SlabPageAlloc::goes_to_next(
                    old(self).map().len(),
                    old(self).coming(),
                    h,
                    final(self).coming(),
                )
            },
    {
        CritMapData::insert_leaf::<Nobody>(self.slab, self.type_id, new_leaf)
    }

    /// The leaf with a key.
    pub fn get_key(&self, search_key: u128) -> (r: Option<LeafNode>)
        requires
            self.wf(),
        ensures
            r == self.map().get(search_key),
    {
        CritMapData::get_key::<Nobody>(self.slab, self.type_id, search_key)
    }

    /// The slot of the leaf with a key.
    pub fn find_by_key(&self, search_key: u128) -> (r: Option<NodeHandle>)
        requires
            self.wf(),
        ensures
            r == if self.map().contains_key(search_key) {
                Some(self.slot_of(search_key))
            } else {
                None
            },
            r matches Some(h) ==> h < self.slots() && self.nodes()[h as int] == AnyNode::Leaf(
                self.map()[search_key],
            ) && self.pool().leaf_at(h, search_key),
    {
        CritMapData::find_by_key::<Nobody>(self.slab, self.type_id, search_key)
    }

    /// Removes the leaf with a key and returns it.
    pub fn remove_by_key(&mut self, search_key: u128) -> (r: Option<LeafNode>)
        requires
            old(self).wf(),
        ensures
            final(self).wf(),
            old(self).same_place(final(self)),
            *final(final(self).slab) == *final(old(self).slab),
            r == old(self).map().get(search_key),
            final(self).map() == old(self).map().remove(search_key),
            r is None ==> *final(self).slab == *old(self).slab,
            r is Some ==> SlabPageAlloc::comes_back(
                old(self).pool(),
                old(self).slot_of(search_key),
                final(self).coming(),
            ),
    {
        CritMapData::remove_by_key::<Nobody>(self.slab, self.type_id, search_key)
    }

    /// Removes the leaf with the smallest key and returns it.
    pub fn remove_min(&mut self) -> (r: Option<LeafNode>)
        requires
            old(self).wf(),
        ensures
            final(self).wf(),
            old(self).same_place(final(self)),
            *final(final(self).slab) == *final(old(self).slab),
            r is Some <==> old(self).map().len() > 0,
            r is None ==> *final(self).slab == *old(self).slab,
            r matches Some(leaf) ==> {
                &&& old(self).map().contains_key(leaf.key)
                &&& old(self).map()[leaf.key] == leaf
                &&& final(self).map() == old(self).map().remove(leaf.key)
                &&& SlabPageAlloc::comes_back(
                    old(self).pool(),
                    old(self).slot_of(leaf.key),
                    final(self).coming(),
                )
                &&& forall|k: u128| #[trigger] old(self).map().contains_key(k) ==> leaf.key <= k
            },
    {
        match self.find_min() {
            Some(h) => match self.get(h) {
                Some(AnyNode::Leaf(leaf)) => self.remove_by_key(leaf.key),
                _ => None,
            },
            None => None,
        }
    }

    /// Removes the leaf with the largest key and returns it.
    pub fn remove_max(&mut self) -> (r: Option<LeafNode>)
        requires
            old(self).wf(),
        ensures
            final(self).wf(),
            old(self).same_place(final(self)),
            *final(final(self).slab) == *final(old(self).slab),
            r is Some <==> old(self).map().len() > 0,
            r is None ==> *final(self).slab == *old(self).slab,
            r matches Some(leaf) ==> {
                &&& old(self).map().contains_key(leaf.key)
                &&& old(self).map()[leaf.key] == leaf
                &&& final(self).map() == old(self).map().remove(leaf.key)
                &&& SlabPageAlloc::comes_back(
                    old(self).pool(),
                    old(self).slot_of(leaf.key),
                    final(self).coming(),
                )
                &&& forall|k: u128| #[trigger] old(self).map().contains_key(k) ==> k <= leaf.key
            },
    {
        match self.find_max() {
            Some(h) => match self.get(h) {
                Some(AnyNode::Leaf(leaf)) => self.remove_by_key(leaf.key),
                _ => None,
            },
            None => None,
        }
    }

    /// The first and the last of the leaves in order are those with the smallest and the largest key.
    proof fn lemma_ends(&self)
        requires
            self.wf(),
        ensures
            crate::sorted::in_order(self.map()).len() == self.map().len(),
            forall|leaf: LeafNode|
                self.map().contains_key(leaf.key) && #[trigger] self.map()[leaf.key] == leaf ==> {
                    &&& (forall|k: u128| #[trigger] self.map().contains_key(k) ==> leaf.key <= k)
                        ==> leaf == crate::sorted::in_order(self.map())[0]
                    &&& (forall|k: u128| #[trigger] self.map().contains_key(k) ==> k <= leaf.key)
                        ==> leaf == crate::sorted::in_order(self.map()).last()
                },
    {
        let map = self.map();
        let keys = crate::sorted::ascending(map.dom());
        self.pool().lemma_map();
        crate::sorted::lemma_ascending_exists(map.dom());
        assert forall|leaf: LeafNode|
            map.contains_key(leaf.key) && #[trigger] map[leaf.key] == leaf implies {
            &&& (forall|k: u128| #[trigger] map.contains_key(k) ==> leaf.key <= k) ==> leaf
                == crate::sorted::in_order(map)[0]
            &&& (forall|k: u128| #[trigger] map.contains_key(k) ==> k <= leaf.key) ==> leaf
                == crate::sorted::in_order(map).last()
        } by {
            assert(map.dom().contains(leaf.key));
            let i = choose|i: int| 0 <= i < keys.len() && keys[i] == leaf.key;
            assert(keys.contains(keys[0]) && keys.contains(keys[keys.len() - 1]));
            assert(map.dom().contains(keys[0]) && map.dom().contains(keys[keys.len() - 1]));
            assert(map.contains_key(keys[0]) && map.contains_key(keys[keys.len() - 1]));
        }
    }

    /// The smallest and the largest key of a map that is not empty have the same slot where there is
    /// one leaf, and only there.
    pub proof fn law_ends_meet(&self)
        requires
            self.wf(),
            self.map().len() > 0,
        ensures
            ({
                let leaves = crate::sorted::in_order(self.map());
                (self.slot_of(leaves[0].key) == self.slot_of(leaves.last().key)) == (self.map().len()
                    == 1)
            }),
    {
        let map = self.map();
        let pool = self.pool();
        let keys = crate::sorted::ascending(map.dom());
        pool.lemma_map();
        crate::sorted::lemma_ascending_exists(map.dom());
        let (first, last) = (keys[0], keys[keys.len() - 1]);
        assert(keys.contains(first) && keys.contains(last));
        assert(map.dom().contains(first) && map.dom().contains(last));
        assert(map.contains_key(first) && map.contains_key(last));
        assert(pool.leaf_at(pool.slot_of(first), first));
        assert(pool.leaf_at(pool.slot_of(last), last));
    }

    /// Different keys have different slots.
    pub proof fn law_slots_differ(&self, a: u128, b: u128)
        requires
            self.map().contains_key(a),
            self.map().contains_key(b),
            a != b,
        ensures
            self.slot_of(a) != self.slot_of(b),
    {
        let pool = self.pool();
        assert(pool.leaf_at(pool.slot_of(a), a));
        assert(pool.leaf_at(pool.slot_of(b), b));
    }

    /// All leaves in ascending order of their keys.
    pub fn traverse(&self) -> (r: Vec<LeafNode>)
        requires
            self.wf(),
        ensures
            r@ == crate::sorted::in_order(self.map()),
            r@.len() == self.map().len(),
    {
        CritMapData::traverse::<Nobody>(self.slab, self.type_id)
    }
}

} // verus!
