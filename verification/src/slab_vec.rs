//! Growing lists of slots, without and with a list of those that are free again.
use crate::codec::{push_u32, push_u64, read_u32, read_u64, Record};
use vstd::prelude::*;

verus! {

/// The head of a list that grows: slots below `next_index` have been handed out.
#[derive(Copy, Clone, Debug)]
pub struct SlabVec {
    pub next_index: u32,
}

impl SlabVec {
    pub open spec fn empty() -> SlabVec {
        SlabVec { next_index: 0 }
    }

    pub fn new() -> (r: Self)
        ensures
            r == Self::empty(),
    {
        SlabVec { next_index: 0 }
    }

    /// Hands out the next slot.
    pub fn next_index(&mut self) -> (r: u32)
        requires
            old(self).next_index < u32::MAX,
        ensures
            r == old(self).next_index,
            *final(self) == (SlabVec { next_index: (r + 1) as u32 }),
    {
        let next: u32 = self.next_index;
        self.next_index = next + 1;
        next
    }

    /// How many slots have been handed out.
    pub fn len(&self) -> (r: u32)
        ensures
            r == self.next_index,
    {
        self.next_index
    }
}

impl Record for SlabVec {
    open spec fn spec_size() -> nat {
        4
    }

    open spec fn spec_align() -> nat {
        1
    }

    open spec fn encoded(&self) -> Seq<u8> {
        crate::codec::u32_bytes(self.next_index)
    }

    open spec fn decoded(bytes: Seq<u8>) -> Self {
        SlabVec { next_index: crate::codec::u32_at(bytes, 0) }
    }

    proof fn lemma_layout() {
    }

    proof fn lemma_round_trip(&self) {
        crate::codec::lemma_integers();
        assert(self.encoded().subrange(0, 4) =~= crate::codec::u32_bytes(self.next_index));
    }

    fn size_of() -> (r: usize) {
        4
    }

    fn align_of() -> (r: usize) {
        1
    }

    fn encode(&self) -> (r: Vec<u8>) {
        let mut out: Vec<u8> = Vec::new();
        push_u32(&mut out, self.next_index);
        assert(out@ =~= self.encoded());
        out
    }

    fn decode(bytes: &[u8]) -> (r: Self) {
        SlabVec { next_index: read_u32(bytes, 0) }
    }
}

/// The head of a list whose slots can be given back: slots below `next_index` have been handed out; `free_top` is one
/// more than the first free slot among them, or 0 if none is free.
#[derive(Copy, Clone, Debug)]
pub struct SlotVec {
    pub next_index: u32,
    pub free_top: u32,
}

impl SlotVec {
    pub open spec fn empty() -> SlotVec {
        SlotVec { next_index: 0, free_top: 0 }
    }

    pub fn new() -> (r: Self)
        ensures
            r == Self::empty(),
    {
        SlotVec { next_index: 0, free_top: 0 }
    }

    /// Hands out the next slot that has never been used.
    pub fn next_index(&mut self) -> (r: u32)
        requires
            old(self).next_index < u32::MAX,
        ensures
            r == old(self).next_index,
            *final(self) == (SlotVec { next_index: (r + 1) as u32, ..*old(self) }),
    {
        let next: u32 = self.next_index;
        self.next_index = next + 1;
        next
    }

    /// How many slots have been handed out.
    pub fn len(&self) -> (r: u32)
        ensures
            r == self.next_index,
    {
        self.next_index
    }

    pub fn free_top(&self) -> (r: u32)
        ensures
            r == self.free_top,
    {
        self.free_top
    }

    pub fn set_free_top(&mut self, free_top: u32)
        ensures
            *final(self) == (SlotVec { free_top, ..*old(self) }),
    {
        self.free_top = free_top;
    }
}

impl Record for SlotVec {
    open spec fn spec_size() -> nat {
        8
    }

    open spec fn spec_align() -> nat {
        1
    }

    open spec fn encoded(&self) -> Seq<u8> {
        crate::codec::u32_bytes(self.next_index) + crate::codec::u32_bytes(self.free_top)
    }

    open spec fn decoded(bytes: Seq<u8>) -> Self {
        SlotVec {
            next_index: crate::codec::u32_at(bytes, 0),
            free_top: crate::codec::u32_at(bytes, 4),
        }
    }

    proof fn lemma_layout() {
    }

    proof fn lemma_round_trip(&self) {
        crate::codec::lemma_integers();
        let s = self.encoded();
        assert(s.subrange(0, 4) =~= crate::codec::u32_bytes(self.next_index));
        assert(s.subrange(4, 8) =~= crate::codec::u32_bytes(self.free_top));
    }

    fn size_of() -> (r: usize) {
        8
    }

    fn align_of() -> (r: usize) {
        1
    }

    fn encode(&self) -> (r: Vec<u8>) {
        let mut out: Vec<u8> = Vec::new();
        push_u32(&mut out, self.next_index);
        push_u32(&mut out, self.free_top);
        assert(out@ =~= self.encoded());
        out
    }

    fn decode(bytes: &[u8]) -> (r: Self) {
        SlotVec { next_index: read_u32(bytes, 0), free_top: read_u32(bytes, 4) }
    }
}

/// A pair of numbers with a mark that it has been written.
#[derive(Copy, Clone, Debug)]
pub struct DataNode {
    pub tag: u8,
    pub data: [u64; 2],
}

impl DataNode {
    pub fn new(data: [u64; 2]) -> (r: Self)
        ensures
            r == (DataNode { tag: 1, data }),
    {
        DataNode { tag: 1, data }
    }

    pub fn data(&self) -> (r: [u64; 2])
        ensures
            r == self.data,
    {
        self.data
    }

    pub open spec fn two(a: u64, b: u64) -> [u64; 2] {
        choose|p: [u64; 2]| #[trigger] p@ == seq![a, b]
    }

    proof fn lemma_two(p: [u64; 2])
        ensures
            Self::two(p[0], p[1]) == p,
    {
        assert(p@ =~= seq![p[0], p[1]]);
        let q = Self::two(p[0], p[1]);
        assert(q@ == p@);
        assert(q =~= p);
    }
}

impl Record for DataNode {
    open spec fn spec_size() -> nat {
        17
    }

    open spec fn spec_align() -> nat {
        1
    }

    open spec fn encoded(&self) -> Seq<u8> {
        seq![self.tag] + crate::codec::u64_bytes(self.data[0]) + crate::codec::u64_bytes(self.data[1])
    }

    open spec fn decoded(bytes: Seq<u8>) -> Self {
        DataNode {
            tag: bytes[0],
            data: Self::two(crate::codec::u64_at(bytes, 1), crate::codec::u64_at(bytes, 9)),
        }
    }

    proof fn lemma_layout() {
    }

    proof fn lemma_round_trip(&self) {
        crate::codec::lemma_integers();
        let s = self.encoded();
        assert(s.subrange(1, 9) =~= crate::codec::u64_bytes(self.data[0]));
        assert(s.subrange(9, 17) =~= crate::codec::u64_bytes(self.data[1]));
        Self::lemma_two(self.data);
    }

    fn size_of() -> (r: usize) {
        17
    }

    fn align_of() -> (r: usize) {
        1
    }

    fn encode(&self) -> (r: Vec<u8>) {
        let mut out: Vec<u8> = Vec::new();
        out.push(self.tag);
        push_u64(&mut out, self.data[0]);
        push_u64(&mut out, self.data[1]);
        assert(out@ =~= self.encoded());
        out
    }

    fn decode(bytes: &[u8]) -> (r: Self) {
        let data: [u64; 2] = [read_u64(bytes, 1), read_u64(bytes, 9)];
        proof {
            Self::lemma_two(data);
        }
        DataNode { tag: bytes[0], data }
    }
}

} // verus!
