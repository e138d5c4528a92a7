//! The nodes of a crit-bit tree and the header of the pool they are taken from.
use crate::bits::bit_at;
use crate::codec::{push_u128, push_u32, push_u64, read_u128, read_u32, read_u64, Record};
use crate::pubkey::{push_key, read_key, Pubkey};
use vstd::prelude::*;

verus! {

/// The slot of a node.
pub type NodeHandle = u32;

/// A branch: all keys below share `prefix_len` leading bits with `key`; the next bit picks the
/// child.
#[derive(Copy, Clone, Debug)]
pub struct InnerNode {
    pub key: u128,
    pub prefix_len: u32,
    pub children: [u32; 2],
}

/// The owner of a leaf that is nobody's.
#[derive(Copy, Clone, Debug)]
pub struct Nobody {}

/// A key with the data that is kept for it, and whose it is, if it is anyone's.
#[derive(Debug)]
pub struct LeafNode<O = Nobody> {
    pub key: u128,
    pub data: u32,
    pub owner: O,
}

/// A leaf that belongs to an address.
pub type OwnedLeaf = LeafNode<Pubkey>;

/// A free slot, with the handle of the next one.
#[derive(Copy, Clone, Debug)]
pub struct FreeNode {
    pub next: u32,
}

/// What a slot holds.
#[derive(Debug)]
pub enum AnyNode<O = Nobody> {
    Uninitialized,
    Inner(InnerNode),
    Leaf(LeafNode<O>),
    Free(FreeNode),
    LastFree(FreeNode),
}

/// A node of a tree whose leaves belong to addresses.
pub type OwnedNode = AnyNode<Pubkey>;

/// Whose a leaf can be: nobody's, or that of an address. How a node is stored depends on it.
pub trait Holder: Copy {
    /// The number of bytes of a node.
    spec fn node_size() -> nat;

    /// The bytes of a node.
    spec fn node_bytes(node: AnyNode<Self>) -> Seq<u8>;

    /// The node that some bytes stand for.
    spec fn node_at(bytes: Seq<u8>) -> AnyNode<Self>;

    proof fn lemma_node_size()
        ensures
            0 < Self::node_size() <= 256,
    ;

    proof fn lemma_node(node: AnyNode<Self>)
        ensures
            Self::node_bytes(node).len() == Self::node_size(),
            Self::node_at(Self::node_bytes(node)) == node,
    ;

    fn size_of_node() -> (r: usize)
        ensures
            r == Self::node_size(),
    ;

    fn encode_node(node: &AnyNode<Self>) -> (r: Vec<u8>)
        ensures
            r@ == Self::node_bytes(*node),
    ;

    fn decode_node(bytes: &[u8]) -> (r: AnyNode<Self>)
        requires
            bytes@.len() == Self::node_size(),
        ensures
            r == Self::node_at(bytes@),
    ;
}

/// The head of a pool of nodes: slots up to `bump_index` have been used, `free_list_len` of them
/// are free again.
#[derive(Copy, Clone, Debug)]
pub struct CritMapHeader {
    pub bump_index: u64,
    pub free_list_len: u64,
    pub free_list_head: u32,
    pub root_node: u32,
    pub leaf_count: u64,
}

impl<O: Copy> Copy for LeafNode<O> {

}

impl<O: Copy> Clone for LeafNode<O> {
    fn clone(&self) -> (r: Self)
        ensures
            r == *self,
    {
        *self
    }
}

impl<O: Copy> Copy for AnyNode<O> {

}

impl<O: Copy> Clone for AnyNode<O> {
    fn clone(&self) -> (r: Self)
        ensures
            r == *self,
    {
        *self
    }
}

impl InnerNode {
    pub open spec fn child(self, crit_bit: bool) -> u32 {
        if crit_bit {
            self.children[1]
        } else {
            self.children[0]
        }
    }

    /// The child on the way to `search_key`, and the bit that picked it.
    pub fn walk_down(&self, search_key: u128) -> (r: (NodeHandle, bool))
        requires
            self.prefix_len < 128,
        ensures
            r.1 == crate::bits::bit(search_key, self.prefix_len),
            r.0 == self.child(r.1),
    {
        let crit_bit: bool = bit_at(search_key, self.prefix_len);
        if crit_bit {
            (self.children[1], crit_bit)
        } else {
            (self.children[0], crit_bit)
        }
    }
}

impl LeafNode {
    /// A leaf that is nobody's.
    pub fn new(key: u128, data: u32) -> (r: Self)
        ensures
            r == (LeafNode { key, data, owner: Nobody {} }),
    {
        LeafNode { key, data, owner: Nobody {} }
    }
}

impl LeafNode<Pubkey> {
    /// A leaf that belongs to `owner`.
    pub fn with_owner(key: u128, slot: u32, owner: &Pubkey) -> (r: Self)
        ensures
            r == (LeafNode { key, data: slot, owner: *owner }),
    {
        LeafNode { key, data: slot, owner: *owner }
    }

    pub fn owner(&self) -> (r: Pubkey)
        ensures
            r == self.owner,
    {
        self.owner
    }
}

impl<O: Copy> LeafNode<O> {
    pub fn key(&self) -> (r: u128)
        ensures
            r == self.key,
    {
        self.key
    }

    pub fn data(&self) -> (r: u32)
        ensures
            r == self.data,
    {
        self.data
    }

    /// The slot of the record that is kept for the key.
    pub fn slot(&self) -> (r: u32)
        ensures
            r == self.data,
    {
        self.data
    }

    pub fn set_slot(&mut self, slot: u32)
        ensures
            *final(self) == (LeafNode { data: slot, ..*old(self) }),
    {
        self.data = slot;
    }
}

impl<O> AnyNode<O> {
    /// Whether the slot holds a node of the tree.
    pub open spec fn live(self) -> bool {
        self is Inner || self is Leaf
    }

    pub open spec fn spec_key(self) -> u128 {
        match self {
            AnyNode::Inner(n) => n.key,
            AnyNode::Leaf(n) => n.key,
            _ => 0,
        }
    }

    pub open spec fn next_free(self) -> u32 {
        match self {
            AnyNode::Free(n) => n.next,
            AnyNode::LastFree(n) => n.next,
            _ => 0,
        }
    }

}

impl<O: Copy> AnyNode<O> {
    /// The key of a node of the tree.
    pub fn key(&self) -> (r: Option<u128>)
        ensures
            r == if self.live() {
                Some(self.spec_key())
            } else {
                None
            },
    {
        match self {
            AnyNode::Inner(n) => Some(n.key),
            AnyNode::Leaf(n) => Some(n.key),
            _ => None,
        }
    }

    /// How many leading bits the keys at or below a node of the tree share: all 128 at a leaf.
    pub fn prefix_len(&self) -> (r: u32)
        requires
            self.live(),
        ensures
            r == match *self {
                AnyNode::Inner(n) => n.prefix_len,
                _ => 128,
            },
    {
        match self {
            AnyNode::Inner(n) => n.prefix_len,
            _ => 128,
        }
    }

    pub fn children(&self) -> (r: Option<[u32; 2]>)
        requires
            self.live(),
        ensures
            r == match *self {
                AnyNode::Inner(n) => Some(n.children),
                _ => None::<[u32; 2]>,
            },
    {
        match self {
            AnyNode::Inner(n) => Some(n.children),
            _ => None,
        }
    }

    /// The leaf in a slot.
    pub fn as_leaf(&self) -> (r: Option<LeafNode<O>>)
        ensures
            r == match *self {
                AnyNode::Leaf(leaf) => Some(leaf),
                _ => None::<LeafNode<O>>,
            },
    {
        match self {
            AnyNode::Leaf(leaf) => Some(*leaf),
            _ => None,
        }
    }

    /// The leaf in a slot, for change.
    pub fn as_leaf_mut(&mut self) -> (r: Option<&mut LeafNode<O>>)
        ensures
            match (*old(self), r) {
                (AnyNode::Leaf(leaf), Some(m)) => *m == leaf && *final(self) == AnyNode::Leaf(*final(m)),
                (AnyNode::Leaf(_), None) => false,
                (_, Some(_)) => false,
                (_, None) => *final(self) == *old(self),
            },
    {
        match self {
            AnyNode::Leaf(leaf) => Some(leaf),
            _ => None,
        }
    }
}

impl CritMapHeader {
    pub open spec fn empty() -> CritMapHeader {
        CritMapHeader { bump_index: 0, free_list_len: 0, free_list_head: 0, root_node: 0, leaf_count: 0 }
    }

    /// The header of a pool that has not been used.
    pub fn new() -> (r: Self)
        ensures
            r == Self::empty(),
    {
        CritMapHeader { bump_index: 0, free_list_len: 0, free_list_head: 0, root_node: 0, leaf_count: 0 }
    }
}

impl Record for CritMapHeader {
    open spec fn spec_size() -> nat {
        32
    }

    open spec fn spec_align() -> nat {
        8
    }

    open spec fn encoded(&self) -> Seq<u8> {
        crate::codec::u64_bytes(self.bump_index) + crate::codec::u64_bytes(self.free_list_len)
            + crate::codec::u32_bytes(self.free_list_head) + crate::codec::u32_bytes(self.root_node)
            + crate::codec::u64_bytes(self.leaf_count)
    }

    open spec fn decoded(bytes: Seq<u8>) -> Self {
        CritMapHeader {
            bump_index: crate::codec::u64_at(bytes, 0),
            free_list_len: crate::codec::u64_at(bytes, 8),
            free_list_head: crate::codec::u32_at(bytes, 16),
            root_node: crate::codec::u32_at(bytes, 20),
            leaf_count: crate::codec::u64_at(bytes, 24),
        }
    }

    proof fn lemma_layout() {
    }

    proof fn lemma_round_trip(&self) {
        crate::codec::lemma_integers();
        let s = self.encoded();
        assert(s.subrange(0, 8) =~= crate::codec::u64_bytes(self.bump_index));
        assert(s.subrange(8, 16) =~= crate::codec::u64_bytes(self.free_list_len));
        assert(s.subrange(16, 20) =~= crate::codec::u32_bytes(self.free_list_head));
        assert(s.subrange(20, 24) =~= crate::codec::u32_bytes(self.root_node));
        assert(s.subrange(24, 32) =~= crate::codec::u64_bytes(self.leaf_count));
    }

    fn size_of() -> (r: usize) {
        32
    }

    fn align_of() -> (r: usize) {
        8
    }

    fn encode(&self) -> (r: Vec<u8>) {
        let mut out: Vec<u8> = Vec::new();
        push_u64(&mut out, self.bump_index);
        push_u64(&mut out, self.free_list_len);
        push_u32(&mut out, self.free_list_head);
        push_u32(&mut out, self.root_node);
        push_u64(&mut out, self.leaf_count);
        assert(out@ =~= self.encoded());
        out
    }

    fn decode(bytes: &[u8]) -> (r: Self) {
        CritMapHeader {
            bump_index: read_u64(bytes, 0),
            free_list_len: read_u64(bytes, 8),
            free_list_head: read_u32(bytes, 16),
            root_node: read_u32(bytes, 20),
            leaf_count: read_u64(bytes, 24),
        }
    }
}

/// `n` zero bytes.
pub open spec fn zeros(n: nat) -> Seq<u8> {
    Seq::new(n, |i: int| 0u8)
}

fn push_zeros(out: &mut Vec<u8>, n: usize)
    ensures
        final(out)@ == old(out)@ + zeros(n as nat),
{
    let mut i: usize = 0;
    while i < n
        invariant
            i <= n,
            out@ == old(out)@ + zeros(i as nat),
        decreases n - i,
    {
        out.push(0);
        i = i + 1;
        assert(out@ =~= old(out)@ + zeros(i as nat));
    }
}

/// The two children of a branch.
pub open spec fn pair(a: u32, b: u32) -> [u32; 2] {
    choose|p: [u32; 2]| #[trigger] p@ == seq![a, b]
}

pub proof fn lemma_pair(p: [u32; 2])
    ensures
        pair(p[0], p[1]) == p,
{
    assert(p@ =~= seq![p[0], p[1]]);
    let q = pair(p[0], p[1]);
    assert(q@ == p@);
    assert(q =~= p);
}

impl<O: Holder> Record for AnyNode<O> {
    open spec fn spec_size() -> nat {
        O::node_size()
    }

    open spec fn spec_align() -> nat {
        1
    }

    open spec fn encoded(&self) -> Seq<u8> {
        O::node_bytes(*self)
    }

    open spec fn decoded(bytes: Seq<u8>) -> Self {
        O::node_at(bytes)
    }

    proof fn lemma_layout() {
        O::lemma_node_size();
    }

    proof fn lemma_round_trip(&self) {
        O::lemma_node(*self);
    }

    fn size_of() -> (r: usize) {
        O::size_of_node()
    }

    fn align_of() -> (r: usize) {
        1
    }

    fn encode(&self) -> (r: Vec<u8>) {
        O::encode_node(self)
    }

    fn decode(bytes: &[u8]) -> (r: Self) {
        O::decode_node(bytes)
    }
}

impl Holder for Nobody {
    open spec fn node_size() -> nat {
        32
    }

    open spec fn node_bytes(node: AnyNode) -> Seq<u8> {
        match node {
            AnyNode::Uninitialized => crate::codec::u32_bytes(0) + zeros(28),
            AnyNode::Inner(n) => crate::codec::u32_bytes(1) + crate::codec::u128_bytes(n.key)
                + crate::codec::u32_bytes(n.prefix_len) + crate::codec::u32_bytes(n.children[0])
                + crate::codec::u32_bytes(n.children[1]),
            AnyNode::Leaf(n) => crate::codec::u32_bytes(2) + crate::codec::u128_bytes(n.key)
                + crate::codec::u32_bytes(n.data) + zeros(8),
            AnyNode::Free(n) => crate::codec::u32_bytes(3) + crate::codec::u32_bytes(n.next) + zeros(24),
            AnyNode::LastFree(n) => crate::codec::u32_bytes(4) + crate::codec::u32_bytes(n.next) + zeros(
                24,
            ),
        }
    }

    open spec fn node_at(bytes: Seq<u8>) -> AnyNode {
        let tag = crate::codec::u32_at(bytes, 0);
        if tag == 1 {
            AnyNode::Inner(
                InnerNode {
                    key: crate::codec::u128_at(bytes, 4),
                    prefix_len: crate::codec::u32_at(bytes, 20),
                    children: pair(crate::codec::u32_at(bytes, 24), crate::codec::u32_at(bytes, 28)),
                },
            )
        } else if tag == 2 {
            AnyNode::Leaf(
                LeafNode {
                    key: crate::codec::u128_at(bytes, 4),
                    data: crate::codec::u32_at(bytes, 20),
                    owner: Nobody {},
                },
            )
        } else if tag == 3 {
            AnyNode::Free(FreeNode { next: crate::codec::u32_at(bytes, 4) })
        } else if tag == 4 {
            AnyNode::LastFree(FreeNode { next: crate::codec::u32_at(bytes, 4) })
        } else {
            AnyNode::Uninitialized
        }
    }

    proof fn lemma_node_size() {
    }

    proof fn lemma_node(node: AnyNode) {
        crate::codec::lemma_integers();
        let s = Self::node_bytes(node);
        match node {
            AnyNode::Uninitialized => {
                assert(s.subrange(0, 4) =~= crate::codec::u32_bytes(0));
            },
            AnyNode::Inner(n) => {
                assert(s.subrange(0, 4) =~= crate::codec::u32_bytes(1));
                assert(s.subrange(4, 20) =~= crate::codec::u128_bytes(n.key));
                assert(s.subrange(20, 24) =~= crate::codec::u32_bytes(n.prefix_len));
                assert(s.subrange(24, 28) =~= crate::codec::u32_bytes(n.children[0]));
                assert(s.subrange(28, 32) =~= crate::codec::u32_bytes(n.children[1]));
                lemma_pair(n.children);
            },
            AnyNode::Leaf(n) => {
                assert(s.subrange(0, 4) =~= crate::codec::u32_bytes(2));
                assert(s.subrange(4, 20) =~= crate::codec::u128_bytes(n.key));
                assert(s.subrange(20, 24) =~= crate::codec::u32_bytes(n.data));
                assert(n.owner == Nobody {});
            },
            AnyNode::Free(n) => {
                assert(s.subrange(0, 4) =~= crate::codec::u32_bytes(3));
                assert(s.subrange(4, 8) =~= crate::codec::u32_bytes(n.next));
            },
            AnyNode::LastFree(n) => {
                assert(s.subrange(0, 4) =~= crate::codec::u32_bytes(4));
                assert(s.subrange(4, 8) =~= crate::codec::u32_bytes(n.next));
            },
        }
    }

    fn size_of_node() -> (r: usize) {
        32
    }

    fn encode_node(node: &AnyNode) -> (r: Vec<u8>) {
        let mut out: Vec<u8> = Vec::new();
        match node {
            AnyNode::Uninitialized => {
                push_u32(&mut out, 0);
                push_zeros(&mut out, 28);
            },
            AnyNode::Inner(n) => {
                push_u32(&mut out, 1);
                push_u128(&mut out, n.key);
                push_u32(&mut out, n.prefix_len);
                push_u32(&mut out, n.children[0]);
                push_u32(&mut out, n.children[1]);
            },
            AnyNode::Leaf(n) => {
                push_u32(&mut out, 2);
                push_u128(&mut out, n.key);
                push_u32(&mut out, n.data);
                push_zeros(&mut out, 8);
            },
            AnyNode::Free(n) => {
                push_u32(&mut out, 3);
                push_u32(&mut out, n.next);
                push_zeros(&mut out, 24);
            },
            AnyNode::LastFree(n) => {
                push_u32(&mut out, 4);
                push_u32(&mut out, n.next);
                push_zeros(&mut out, 24);
            },
        }
        assert(out@ =~= Self::node_bytes(*node));
        out
    }

    fn decode_node(bytes: &[u8]) -> (r: AnyNode) {
        let tag: u32 = read_u32(bytes, 0);
        if tag == 1 {
            let children: [u32; 2] = [read_u32(bytes, 24), read_u32(bytes, 28)];
            proof {
                lemma_pair(children);
            }
            AnyNode::Inner(InnerNode { key: read_u128(bytes, 4), prefix_len: read_u32(bytes, 20), children })
        } else if tag == 2 {
            AnyNode::Leaf(LeafNode::new(read_u128(bytes, 4), read_u32(bytes, 20)))
        } else if tag == 3 {
            AnyNode::Free(FreeNode { next: read_u32(bytes, 4) })
        } else if tag == 4 {
            AnyNode::LastFree(FreeNode { next: read_u32(bytes, 4) })
        } else {
            AnyNode::Uninitialized
        }
    }
}

impl Holder for Pubkey {
    open spec fn node_size() -> nat {
        53
    }

    open spec fn node_bytes(node: OwnedNode) -> Seq<u8> {
        match node {
            AnyNode::Uninitialized => seq![0u8] + zeros(52),
            AnyNode::Inner(n) => seq![1u8] + crate::codec::u128_bytes(n.key)
                + crate::codec::u32_bytes(n.prefix_len) + crate::codec::u32_bytes(n.children[0])
                + crate::codec::u32_bytes(n.children[1]) + zeros(24),
            AnyNode::Leaf(n) => seq![2u8] + crate::codec::u128_bytes(n.key)
                + crate::codec::u32_bytes(n.data) + n.owner.bytes@,
            AnyNode::Free(n) => seq![3u8] + crate::codec::u32_bytes(n.next) + zeros(48),
            AnyNode::LastFree(n) => seq![4u8] + crate::codec::u32_bytes(n.next) + zeros(
                48,
            ),
        }
    }

    open spec fn node_at(bytes: Seq<u8>) -> OwnedNode {
        let tag = bytes[0];
        if tag == 1 {
            AnyNode::Inner(
                InnerNode {
                    key: crate::codec::u128_at(bytes, 1),
                    prefix_len: crate::codec::u32_at(bytes, 17),
                    children: pair(crate::codec::u32_at(bytes, 21), crate::codec::u32_at(bytes, 25)),
                },
            )
        } else if tag == 2 {
            AnyNode::Leaf(
                LeafNode {
                    key: crate::codec::u128_at(bytes, 1),
                    data: crate::codec::u32_at(bytes, 17),
                    owner: crate::pubkey::key_at(bytes, 21),
                },
            )
        } else if tag == 3 {
            AnyNode::Free(FreeNode { next: crate::codec::u32_at(bytes, 1) })
        } else if tag == 4 {
            AnyNode::LastFree(FreeNode { next: crate::codec::u32_at(bytes, 1) })
        } else {
            AnyNode::Uninitialized
        }
    }

    proof fn lemma_node_size() {
    }

    proof fn lemma_node(node: OwnedNode) {
        crate::codec::lemma_integers();
        let s = Self::node_bytes(node);
        match node {
            AnyNode::Uninitialized => {
            },
            AnyNode::Inner(n) => {
                assert(s.subrange(1, 17) =~= crate::codec::u128_bytes(n.key));
                assert(s.subrange(17, 21) =~= crate::codec::u32_bytes(n.prefix_len));
                assert(s.subrange(21, 25) =~= crate::codec::u32_bytes(n.children[0]));
                assert(s.subrange(25, 29) =~= crate::codec::u32_bytes(n.children[1]));
                lemma_pair(n.children);
            },
            AnyNode::Leaf(n) => {
                assert(s.subrange(1, 17) =~= crate::codec::u128_bytes(n.key));
                assert(s.subrange(17, 21) =~= crate::codec::u32_bytes(n.data));
                assert(s.subrange(21, 53) =~= n.owner.bytes@);
                Pubkey::lemma_of(n.owner);
            },
            AnyNode::Free(n) => {
                assert(s.subrange(1, 5) =~= crate::codec::u32_bytes(n.next));
            },
            AnyNode::LastFree(n) => {
                assert(s.subrange(1, 5) =~= crate::codec::u32_bytes(n.next));
            },
        }
    }

    fn size_of_node() -> (r: usize) {
        53
    }

    fn encode_node(node: &OwnedNode) -> (r: Vec<u8>) {
        let mut out: Vec<u8> = Vec::new();
        match node {
            AnyNode::Uninitialized => {
                out.push(0);
                push_zeros(&mut out, 52);
            },
            AnyNode::Inner(n) => {
                out.push(1);
                push_u128(&mut out, n.key);
                push_u32(&mut out, n.prefix_len);
                push_u32(&mut out, n.children[0]);
                push_u32(&mut out, n.children[1]);
                push_zeros(&mut out, 24);
            },
            AnyNode::Leaf(n) => {
                out.push(2);
                push_u128(&mut out, n.key);
                push_u32(&mut out, n.data);
                push_key(&mut out, &n.owner);
            },
            AnyNode::Free(n) => {
                out.push(3);
                push_u32(&mut out, n.next);
                push_zeros(&mut out, 48);
            },
            AnyNode::LastFree(n) => {
                out.push(4);
                push_u32(&mut out, n.next);
                push_zeros(&mut out, 48);
            },
        }
        assert(out@ =~= Self::node_bytes(*node));
        out
    }

    fn decode_node(bytes: &[u8]) -> (r: OwnedNode) {
        let tag: u8 = bytes[0];
        if tag == 1 {
            let children: [u32; 2] = [read_u32(bytes, 21), read_u32(bytes, 25)];
            proof {
                lemma_pair(children);
            }
            AnyNode::Inner(InnerNode { key: read_u128(bytes, 1), prefix_len: read_u32(bytes, 17), children })
        } else if tag == 2 {
            AnyNode::Leaf(
                LeafNode { key: read_u128(bytes, 1), data: read_u32(bytes, 17), owner: read_key(bytes, 21) },
            )
        } else if tag == 3 {
            AnyNode::Free(FreeNode { next: read_u32(bytes, 1) })
        } else if tag == 4 {
            AnyNode::LastFree(FreeNode { next: read_u32(bytes, 1) })
        } else {
            AnyNode::Uninitialized
        }
    }
}

} // verus!
