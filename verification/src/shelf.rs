//! Records found by key: a crit-bit map whose leaves name the slots of a list of records.
use crate::codec::Record;
use crate::crit_map::CritMapData;
use crate::node::{CritMapHeader, OwnedLeaf, OwnedNode};
use crate::pubkey::Pubkey;
use crate::slab::SlabPageAlloc;
use crate::slab_vec::SlotVec;
use vstd::prelude::*;

verus! {

/// A record that can hold the number of the next free slot while its own slot is free.
pub trait Slotted: Record + Copy {
    /// The number that a free slot holds: one more than the next free slot, or 0.
    spec fn spec_link(&self) -> u64;

    spec fn spec_linked(&self, link: u64) -> Self;

    proof fn lemma_linked(&self, link: u64)
        ensures
            self.spec_linked(link).spec_link() == link,
    ;

    fn link(&self) -> (r: u64)
        ensures
            r == self.spec_link(),
    ;

    fn linked(&self, link: u64) -> (r: Self)
        ensures
            r == self.spec_linked(link),
    ;
}

/// A record and whose it is.
pub struct Kept<R> {
    pub owner: Pubkey,
    pub value: R,
}

/// Whether the free list that starts at `top` has `n` slots, all below `bound`.
pub open spec fn free_list<R: Slotted>(recs: Seq<R>, top: u64, n: nat, bound: int) -> bool
    decreases n,
{
    if n == 0 {
        top == 0
    } else {
        1 <= top <= bound && free_list(recs, recs[top - 1].spec_link(), (n - 1) as nat, bound)
    }
}

/// Whether slot `h` is one of the first `n` slots of the free list that starts at `top`.
pub open spec fn listed<R: Slotted>(recs: Seq<R>, top: u64, n: nat, h: u32) -> bool
    decreases n,
{
    n > 0 && (top == h + 1 || listed(recs, recs[top - 1].spec_link(), (n - 1) as nat, h))
}

/// Whether no slot occurs twice among the first `n` of the free list that starts at `top`.
pub open spec fn distinct<R: Slotted>(recs: Seq<R>, top: u64, n: nat) -> bool
    decreases n,
{
    n > 0 ==> !listed(recs, recs[top - 1].spec_link(), (n - 1) as nat, (top - 1) as u32) && distinct(
        recs,
        recs[top - 1].spec_link(),
        (n - 1) as nat,
    )
}

/// The first `n` slots of the free list that starts at `top`.
pub open spec fn free_chain<R: Slotted>(recs: Seq<R>, top: u64, n: nat) -> Seq<u32>
    decreases n,
{
    if n == 0 {
        Seq::empty()
    } else {
        seq![(top - 1) as u32] + free_chain(recs, recs[top - 1].spec_link(), (n - 1) as nat)
    }
}

/// How many slots the free list that starts at `top` has.
pub open spec fn free_count<R: Slotted>(recs: Seq<R>, top: u64, bound: int) -> nat {
    choose|n: nat| free_list(recs, top, n, bound)
}

/// A free list has one length.
proof fn lemma_one_length<R: Slotted>(recs: Seq<R>, top: u64, n: nat, k: nat, bound: int)
    requires
        free_list(recs, top, n, bound),
        free_list(recs, top, k, bound),
    ensures
        n == k,
    decreases n,
{
    if n > 0 && k > 0 {
        lemma_one_length(recs, recs[top - 1].spec_link(), (n - 1) as nat, (k - 1) as nat, bound);
    }
}

proof fn lemma_free_count<R: Slotted>(recs: Seq<R>, top: u64, n: nat, bound: int)
    requires
        free_list(recs, top, n, bound),
    ensures
        free_count(recs, top, bound) == n,
{
    lemma_one_length(recs, top, n, free_count(recs, top, bound), bound);
}

/// Slots that are not in a free list do not matter to it.
proof fn lemma_free_list_frame<R: Slotted>(recs: Seq<R>, other: Seq<R>, top: u64, n: nat, bound: int, more: int)
    requires
        free_list(recs, top, n, bound),
        bound <= more,
        bound <= u32::MAX,
        forall|h: u32| #[trigger] listed(recs, top, n, h) ==> other[h as int] == recs[h as int],
    ensures
        free_list(other, top, n, more),
        forall|h: u32| listed(other, top, n, h) == #[trigger] listed(recs, top, n, h),
        distinct(recs, top, n) ==> distinct(other, top, n),
        forall|h: u32| #[trigger] listed(recs, top, n, h) ==> h < bound,
        free_chain(other, top, n) == free_chain(recs, top, n),
    decreases n,
{
    if n > 0 {
        let h0 = (top - 1) as u32;
        assert(listed(recs, top, n, h0));
        let next = recs[top - 1].spec_link();
        assert forall|h: u32| #[trigger] listed(recs, next, (n - 1) as nat, h) implies other[h as int]
            == recs[h as int] by {
            assert(listed(recs, top, n, h));
        }
        lemma_free_list_frame(recs, other, next, (n - 1) as nat, bound, more);
        assert forall|h: u32| listed(other, top, n, h) == #[trigger] listed(recs, top, n, h) by {
            assert(listed(other, next, (n - 1) as nat, h) == listed(recs, next, (n - 1) as nat, h));
        }
        assert forall|h: u32| #[trigger] listed(recs, top, n, h) implies h < bound by {
            if top != h + 1 {
                assert(listed(recs, next, (n - 1) as nat, h));
            }
        }
        if distinct(recs, top, n) {
            assert(listed(other, next, (n - 1) as nat, h0) == listed(recs, next, (n - 1) as nat, h0));
        }
    }
}

impl SlabPageAlloc {
    /// How many slots are free: all that were handed out but for those of the leaves and those that
    /// are held.
    pub open spec fn free_slots<R: Slotted>(self, m: int, v: int, held: Set<u32>) -> int {
        self.header_of::<SlotVec>(v).next_index - self.map::<Pubkey>(m).len() - held.len()
    }

    /// The slots that the next records go to, in turn: those freed last come first, and those never
    /// used come after all freed ones.
    pub open spec fn coming_slots<R: Slotted>(self, v: int) -> Seq<u32> {
        let head = self.header_of::<SlotVec>(v);
        let recs = self.items::<R>(v);
        let top = head.free_top as u64;
        free_chain(recs, top, free_count(recs, top, head.next_index as int)) + Seq::new(
            (recs.len() - head.next_index) as nat,
            |i: int| (head.next_index + i) as u32,
        )
    }

    /// Whether slot `h` is in the free list of entry `v`.
    pub open spec fn is_free<R: Slotted>(self, m: int, v: int, held: Set<u32>, h: u32) -> bool {
        listed(
            self.items::<R>(v),
            self.header_of::<SlotVec>(v).free_top as u64,
            self.free_slots::<R>(m, v, held) as nat,
            h,
        )
    }

    /// Whether entries `m` and `v` are a map and the records that its leaves name. Each leaf has a
    /// slot of its own; the other slots that were handed out are in the free list, but for those
    /// that are held for records to come.
    pub open spec fn has_shelf<R: Slotted>(self, m: int, v: int, held: Set<u32>) -> bool {
        let head = self.header_of::<SlotVec>(v);
        let recs = self.items::<R>(v);
        let map = self.map::<Pubkey>(m);
        let n = self.free_slots::<R>(m, v, held);
        &&& self.has_map::<Pubkey>(m)
        &&& self.laid_out::<SlotVec, R>(v)
        &&& m != v
        &&& held.finite()
        &&& self.apart::<OwnedNode, R>(m, v)
        &&& recs.len() <= u32::MAX
        &&& head.next_index <= recs.len()
        &&& 0 <= n
        &&& free_list(recs, head.free_top as u64, n as nat, head.next_index as int)
        &&& distinct(recs, head.free_top as u64, n as nat)
        &&& forall|k: u128| #[trigger]
            map.contains_key(k) ==> map[k].data < head.next_index && !self.is_free::<R>(
                m,
                v,
                held,
                map[k].data,
            ) && !held.contains(map[k].data)
        &&& forall|k: u128, l: u128|
            #![trigger map.contains_key(k), map.contains_key(l)]
            map.contains_key(k) && map.contains_key(l) && k != l ==> map[k].data != map[l].data
        &&& forall|h: u32| #[trigger]
            held.contains(h) ==> h < head.next_index && !self.is_free::<R>(m, v, held, h)
    }

    /// Whether there is a slot for one more record, whichever slots are held.
    pub open spec fn has_next_slot<R: Slotted>(self, m: int, v: int) -> bool {
        exists|held: Set<u32>| #[trigger]
            self.has_shelf::<R>(m, v, held) && self.map::<Pubkey>(m).len() + held.len() < self.items::<R>(v).len()
    }

    /// Whether a slot is held.
    pub open spec fn holds_slot<R: Slotted>(self, m: int, v: int, slot: u32) -> bool {
        exists|held: Set<u32>| #[trigger] self.has_shelf::<R>(m, v, held) && held.contains(slot)
    }

    /// The records by their keys.
    pub open spec fn shelf<R: Slotted>(self, m: int, v: int) -> Map<u128, Kept<R>> {
        Map::new(
            |k: u128| self.map::<Pubkey>(m).contains_key(k),
            |k: u128|
                Kept { owner: self.map::<Pubkey>(m)[k].owner, value: self.items::<R>(v)[self.map::<Pubkey>(m)[k].data as int] },
        )
    }

    /// Whether `other` is this slab but for the pages of entries `m` and `v`.
    pub open spec fn same_but_shelf<R: Slotted>(self, other: SlabPageAlloc, m: int, v: int) -> bool {
        &&& other.table == self.table
        &&& other.types == self.types
        &&& other.pages@.len() == self.pages@.len()
        &&& forall|q: int|
            0 <= q < self.pages@.len() && !(self.first_page(m) <= q < self.first_page(m)
                + self.page_count::<OwnedNode>(m)) && !(self.first_page(v) <= q < self.first_page(v)
                + self.page_count::<R>(v)) ==> other.pages@[q] == self.pages@[q]
    }

    /// Pages with empty heads hold an empty shelf, and all its slots are to come in turn.
    pub proof fn law_blank_shelf<R: Slotted>(self, m: int, v: int)
        requires
            self.laid_out::<CritMapHeader, OwnedNode>(m),
            self.header_of::<CritMapHeader>(m) == CritMapHeader::empty(),
            self.laid_out::<SlotVec, R>(v),
            self.header_of::<SlotVec>(v) == SlotVec::empty(),
            m != v,
            self.apart::<OwnedNode, R>(m, v),
        ensures
            self.has_shelf::<R>(m, v, Set::empty()),
            self.shelf::<R>(m, v) == Map::<u128, Kept<R>>::empty(),
            self.coming_slots::<R>(v) == Seq::new(self.items::<R>(v).len(), |i: int| i as u32),
    {
        self.law_blank_map::<Pubkey>(m);
        self.lemma_usable::<SlotVec, R>(v);
        let recs = self.items::<R>(v);
        assert(self.map::<Pubkey>(m).dom() =~= Set::<u128>::empty());
        assert(self.free_slots::<R>(m, v, Set::empty()) == 0);
        assert(free_list(recs, 0, 0, 0));
        assert(distinct(recs, 0, 0));
        lemma_free_count(recs, 0, 0, 0);
        assert(self.shelf::<R>(m, v) =~= Map::<u128, Kept<R>>::empty());
        assert(self.coming_slots::<R>(v) =~= Seq::new(recs.len(), |i: int| i as u32));
    }

    /// A change to one shelf leaves a type on other pages as it was.
    pub proof fn lemma_kept_apart<R: Slotted, H: Record, T: Record>(
        self,
        other: SlabPageAlloc,
        m: int,
        v: int,
        t: int,
    )
        requires
            self.laid_out::<H, T>(t),
            self.same_but_shelf::<R>(other, m, v),
            self.apart::<OwnedNode, T>(m, t),
            self.apart::<R, T>(v, t),
        ensures
            other.laid_out::<H, T>(t),
            other.items::<T>(t) == self.items::<T>(t),
            other.header_of::<H>(t) == self.header_of::<H>(t),
    {
        self.lemma_usable::<H, T>(t);
        self.lemma_item_page::<H, T>(t, 0);
        assert forall|j: int| 0 <= j < self.usable::<T>(t) implies other.item::<T>(t, j)
            == #[trigger] self.items::<T>(t)[j] by {
            self.lemma_item_page::<H, T>(t, j);
        }
        assert(other.items::<T>(t) =~= self.items::<T>(t));
    }
}

/// The operations on a shelf.
pub struct Shelf {}

impl Shelf {
    /// Where records and held slots are fewer than the slots, there is a slot to hand out.
    proof fn lemma_room<R: Slotted>(slab: SlabPageAlloc, m: int, v: int, held: Set<u32>)
        requires
            slab.has_shelf::<R>(m, v, held),
            slab.map::<Pubkey>(m).len() + held.len() < slab.items::<R>(v).len(),
            slab.header_of::<SlotVec>(v).free_top == 0,
        ensures
            slab.free_slots::<R>(m, v, held) == 0,
            slab.header_of::<SlotVec>(v).next_index < slab.items::<R>(v).len(),
            slab.header_of::<SlotVec>(v).next_index < u32::MAX,
    {
        slab.pool::<Pubkey>(m).lemma_map();
        let n = slab.free_slots::<R>(m, v, held) as nat;
        if n > 0 {
            assert(free_list(slab.items::<R>(v), 0, n, slab.header_of::<SlotVec>(v).next_index as int));
        }
    }

    /// What handing out slot `r` comes to.
    proof fn lemma_handed_out<R: Slotted>(before: SlabPageAlloc, after: SlabPageAlloc, m: int, v: int, held: Set<u32>, r: u32)
        requires
            before.has_shelf::<R>(m, v, held),
            before.map::<Pubkey>(m).len() + held.len() < before.items::<R>(v).len(),
            after.laid_out::<CritMapHeader, OwnedNode>(m),
            after.laid_out::<SlotVec, R>(v),
            after.apart::<OwnedNode, R>(m, v),
            after.pool::<Pubkey>(m) == before.pool::<Pubkey>(m),
            after.items::<R>(v) == before.items::<R>(v),
            ({
                let head = before.header_of::<SlotVec>(v);
                if head.free_top == 0 {
                    r == head.next_index && after.header_of::<SlotVec>(v) == (SlotVec {
                        next_index: (r + 1) as u32,
                        free_top: 0,
                    })
                } else {
                    r == head.free_top - 1 && after.header_of::<SlotVec>(v) == (SlotVec {
                        free_top: before.items::<R>(v)[r as int].spec_link() as u32,
                        ..head
                    })
                }
            }),
        ensures
            after.has_shelf::<R>(m, v, held.insert(r)),
            !held.contains(r),
            before.coming_slots::<R>(v).len() > 0,
            before.coming_slots::<R>(v)[0] == r,
            after.coming_slots::<R>(v) == before.coming_slots::<R>(v).skip(1),
    {
        let recs = before.items::<R>(v);
        let head = before.header_of::<SlotVec>(v);
        let n = before.free_slots::<R>(m, v, held) as nat;
        let more = held.insert(r);
        lemma_free_count(recs, head.free_top as u64, n, head.next_index as int);
        if head.free_top == 0 {
            Self::lemma_room::<R>(before, m, v, held);
            assert(after.free_slots::<R>(m, v, more) == 0);
            lemma_free_count(recs, 0, 0, head.next_index + 1);
        } else {
            let next = recs[r as int].spec_link();
            assert(free_list(recs, next, (n - 1) as nat, head.next_index as int));
            if n - 1 > 0 {
                assert(next <= head.next_index);
            }
            assert(before.is_free::<R>(m, v, held, r));
            assert(after.free_slots::<R>(m, v, more) == n - 1);
            lemma_free_count(recs, next, (n - 1) as nat, head.next_index as int);
        }
        assert(before.coming_slots::<R>(v)[0] == r);
        assert(after.coming_slots::<R>(v) =~= before.coming_slots::<R>(v).skip(1));
        assert forall|k: u128| #[trigger] after.map::<Pubkey>(m).contains_key(k) implies !after.is_free::<R>(
            m,
            v,
            more,
            after.map::<Pubkey>(m)[k].data,
        ) && !more.contains(after.map::<Pubkey>(m)[k].data) by {
            assert(before.map::<Pubkey>(m).contains_key(k));
            assert(!before.is_free::<R>(m, v, held, before.map::<Pubkey>(m)[k].data));
        }
        assert forall|h: u32| #[trigger] more.contains(h) implies h < after.header_of::<SlotVec>(
            v,
        ).next_index && !after.is_free::<R>(m, v, more, h) by {
            if h != r {
                assert(held.contains(h));
                assert(!before.is_free::<R>(m, v, held, h));
            }
        }
    }

    /// Takes a slot for a record to come: the one freed last, or else the next that was never used.
    pub fn next_slot<R: Slotted>(slab: &mut SlabPageAlloc, m: u16, v: u16) -> (r: u32)
        requires
            old(slab).has_next_slot::<R>(m as int, v as int),
        ensures
            forall|held: Set<u32>| #[trigger]
                old(slab).has_shelf::<R>(m as int, v as int, held) ==> !held.contains(r) && final(slab).has_shelf::<R>(m as int, v as int, held.insert(r)),
            r == if old(slab).header_of::<SlotVec>(v as int).free_top == 0 {
                old(slab).header_of::<SlotVec>(v as int).next_index
            } else {
                (old(slab).header_of::<SlotVec>(v as int).free_top - 1) as u32
            },
            old(slab).coming_slots::<R>(v as int).len() > 0,
            r == old(slab).coming_slots::<R>(v as int)[0],
            final(slab).coming_slots::<R>(v as int) == old(slab).coming_slots::<R>(v as int).skip(1),
            final(slab).header_of::<SlotVec>(v as int) == if old(slab).header_of::<SlotVec>(
                v as int,
            ).free_top == 0 {
                SlotVec { next_index: (r + 1) as u32, free_top: 0 }
            } else {
                SlotVec {
                    free_top: old(slab).items::<R>(v as int)[r as int].spec_link() as u32,
                    ..old(slab).header_of::<SlotVec>(v as int)
                }
            },
            final(slab).pool::<Pubkey>(m as int) == old(slab).pool::<Pubkey>(m as int),
            final(slab).items::<R>(v as int) == old(slab).items::<R>(v as int),
            final(slab).shelf::<R>(m as int, v as int) == old(slab).shelf::<R>(m as int, v as int),
            old(slab).same_but_shelf::<R>(*final(slab), m as int, v as int),
    {
        let ghost (mi, vi) = (m as int, v as int);
        let ghost recs = slab.items::<R>(vi);
        let ghost some = choose|held: Set<u32>| #[trigger]
            slab.has_shelf::<R>(mi, vi, held) && slab.map::<Pubkey>(mi).len() + held.len() < recs.len();
        let ghost n = slab.free_slots::<R>(mi, vi, some) as nat;
        let ghost before = *slab;
        let mut head: SlotVec = slab.get_header::<SlotVec, R>(v);
        let ghost head0 = head;
        let r: u32;
        if head.free_top() == 0 {
            proof {
                Self::lemma_room::<R>(*slab, mi, vi, some);
            }
            r = head.next_index();
            slab.set_header::<SlotVec, R>(v, &head);
        } else {
            r = head.free_top() - 1;
            proof {
                assert(n > 0);
                let next = recs[r as int].spec_link();
                assert(free_list(recs, next, (n - 1) as nat, head0.next_index as int));
                if n - 1 > 0 {
                    assert(next <= head0.next_index);
                }
            }
            let rec: R = slab.get::<SlotVec, R>(v, r as usize);
            let next: u64 = rec.link();
            head.set_free_top(next as u32);
            slab.set_header::<SlotVec, R>(v, &head);
        }
        proof {
            before.law_apart_kept::<R, CritMapHeader, OwnedNode>(*slab, vi, mi);
            assert(slab.pool::<Pubkey>(mi) =~= before.pool::<Pubkey>(mi));
            assert(slab.shelf::<R>(mi, vi) =~= before.shelf::<R>(mi, vi));
            Self::lemma_handed_out::<R>(before, *slab, mi, vi, some, r);
            assert forall|held: Set<u32>| #[trigger] before.has_shelf::<R>(mi, vi, held) implies !held.contains(
                r,
            ) && slab.has_shelf::<R>(mi, vi, held.insert(r)) by {
                let k = before.free_slots::<R>(mi, vi, held) as nat;
                lemma_one_length(recs, head0.free_top as u64, n, k, head0.next_index as int);
                Self::lemma_handed_out::<R>(before, *slab, mi, vi, held, r);
            }
        }
        r
    }

    /// What putting slot `idx` into the free list comes to.
    proof fn lemma_freed<R: Slotted>(before: SlabPageAlloc, after: SlabPageAlloc, m: int, v: int, held: Set<u32>, idx: u32)
        requires
            before.has_shelf::<R>(m, v, held),
            held.contains(idx),
            after.laid_out::<CritMapHeader, OwnedNode>(m),
            after.laid_out::<SlotVec, R>(v),
            after.apart::<OwnedNode, R>(m, v),
            after.pool::<Pubkey>(m) == before.pool::<Pubkey>(m),
            ({
                let head = before.header_of::<SlotVec>(v);
                let recs = before.items::<R>(v);
                &&& after.items::<R>(v) == recs.update(
                    idx as int,
                    recs[idx as int].spec_linked(head.free_top as u64),
                )
                &&& after.header_of::<SlotVec>(v) == (SlotVec { free_top: (idx + 1) as u32, ..head })
            }),
        ensures
            after.has_shelf::<R>(m, v, held.remove(idx)),
            after.coming_slots::<R>(v) == seq![idx] + before.coming_slots::<R>(v),
    {
        let recs = before.items::<R>(v);
        let head = before.header_of::<SlotVec>(v);
        let top = head.free_top as u64;
        let bound = head.next_index as int;
        let n = before.free_slots::<R>(m, v, held) as nat;
        let fewer = held.remove(idx);
        let others = after.items::<R>(v);
        recs[idx as int].lemma_linked(top);
        assert(!before.is_free::<R>(m, v, held, idx));
        lemma_free_list_frame(recs, recs, top, n, bound, bound);
        assert forall|h: u32| #[trigger] listed(recs, top, n, h) implies others[h as int] == recs[h as int] by {}
        lemma_free_list_frame(recs, others, top, n, bound, bound);
        assert(after.free_slots::<R>(m, v, fewer) == n + 1);
        assert(listed(others, top, n, idx) == listed(recs, top, n, idx));
        assert(free_list(others, (idx + 1) as u64, n + 1, bound));
        assert(distinct(others, (idx + 1) as u64, n + 1));
        lemma_free_count(recs, top, n, bound);
        lemma_free_count(others, (idx + 1) as u64, n + 1, bound);
        assert(after.coming_slots::<R>(v) =~= seq![idx] + before.coming_slots::<R>(v));
        assert forall|k: u128| #[trigger] after.map::<Pubkey>(m).contains_key(k) implies !after.is_free::<R>(
            m,
            v,
            fewer,
            after.map::<Pubkey>(m)[k].data,
        ) by {
            assert(before.map::<Pubkey>(m).contains_key(k));
            let d = before.map::<Pubkey>(m)[k].data;
            assert(!before.is_free::<R>(m, v, held, d));
            assert(listed(others, top, n, d) == listed(recs, top, n, d));
        }
        assert forall|h: u32| #[trigger] fewer.contains(h) implies h < bound && !after.is_free::<R>(
            m,
            v,
            fewer,
            h,
        ) by {
            assert(held.contains(h));
            assert(!before.is_free::<R>(m, v, held, h));
            assert(listed(others, top, n, h) == listed(recs, top, n, h));
        }
    }

    /// Puts a held slot into the free list.
    pub fn free_slot<R: Slotted>(slab: &mut SlabPageAlloc, m: u16, v: u16, idx: u32)
        requires
            old(slab).holds_slot::<R>(m as int, v as int, idx),
        ensures
            forall|held: Set<u32>| #[trigger]
                old(slab).has_shelf::<R>(m as int, v as int, held) && held.contains(idx) ==> final(slab).has_shelf::<R>(m as int, v as int, held.remove(idx)),
            final(slab).coming_slots::<R>(v as int) == seq![idx] + old(slab).coming_slots::<R>(v as int),
            final(slab).header_of::<SlotVec>(v as int) == (SlotVec {
                free_top: (idx + 1) as u32,
                ..old(slab).header_of::<SlotVec>(v as int)
            }),
            final(slab).items::<R>(v as int) == old(slab).items::<R>(v as int).update(
                idx as int,
                old(slab).items::<R>(v as int)[idx as int].spec_linked(
                    old(slab).header_of::<SlotVec>(v as int).free_top as u64,
                ),
            ),
            final(slab).pool::<Pubkey>(m as int) == old(slab).pool::<Pubkey>(m as int),
            final(slab).shelf::<R>(m as int, v as int) == old(slab).shelf::<R>(m as int, v as int),
            old(slab).same_but_shelf::<R>(*final(slab), m as int, v as int),
    {
        let ghost (mi, vi) = (m as int, v as int);
        let ghost before = *slab;
        let ghost recs = slab.items::<R>(vi);
        let ghost some = choose|held: Set<u32>| #[trigger]
            slab.has_shelf::<R>(mi, vi, held) && held.contains(idx);
        let mut head: SlotVec = slab.get_header::<SlotVec, R>(v);
        let free_top: u32 = head.free_top();
        let rec: R = slab.get::<SlotVec, R>(v, idx as usize);
        let rec: R = rec.linked(free_top as u64);
        slab.set::<SlotVec, R>(v, idx as usize, &rec);
        let ghost between = *slab;
        head.set_free_top(idx + 1);
        slab.set_header::<SlotVec, R>(v, &head);
        proof {
            before.law_apart_kept::<R, CritMapHeader, OwnedNode>(between, vi, mi);
            between.law_apart_kept::<R, CritMapHeader, OwnedNode>(*slab, vi, mi);
            assert(slab.pool::<Pubkey>(mi) =~= before.pool::<Pubkey>(mi));
            assert(slab.items::<R>(vi) == recs.update(idx as int, rec));
            assert(slab.shelf::<R>(mi, vi) =~= before.shelf::<R>(mi, vi)) by {
                assert forall|k: u128| before.map::<Pubkey>(mi).contains_key(k) implies #[trigger] before.map::<Pubkey>(mi)[k].data
                    != idx by {}
            }
            Self::lemma_freed::<R>(before, *slab, mi, vi, some, idx);
            assert forall|held: Set<u32>| #[trigger]
                before.has_shelf::<R>(mi, vi, held) && held.contains(idx) implies slab.has_shelf::<R>(
                mi,
                vi,
                held.remove(idx),
            ) by {
                Self::lemma_freed::<R>(before, *slab, mi, vi, held, idx);
            }
        }
    }

    /// Finds the leaf and the record of a key.
    pub fn get<R: Slotted>(slab: &SlabPageAlloc, m: u16, v: u16, key: u128) -> (r: Option<(OwnedLeaf, R)>)
        requires
            slab.has_shelf::<R>(m as int, v as int, Set::empty()),
        ensures
            r is Some <==> slab.shelf::<R>(m as int, v as int).contains_key(key),
            r matches Some((leaf, rec)) ==> {
                &&& leaf == slab.map::<Pubkey>(m as int)[key]
                &&& leaf.key == key
                &&& slab.shelf::<R>(m as int, v as int)[key] == (Kept { owner: leaf.owner, value: rec })
            },
    {
        proof {
            slab.pool::<Pubkey>(m as int).lemma_map();
        }
        match CritMapData::get_key::<Pubkey>(slab, m, key) {
            Some(leaf) => {
                assert(slab.map::<Pubkey>(m as int).contains_key(key));
                let rec: R = slab.get::<SlotVec, R>(v, leaf.slot() as usize);
                Some((leaf, rec))
            },
            None => None,
        }
    }

    /// Replaces the record of a key.
    pub fn set<R: Slotted>(slab: &mut SlabPageAlloc, m: u16, v: u16, leaf: &OwnedLeaf, rec: &R)
        requires
            old(slab).has_shelf::<R>(m as int, v as int, Set::empty()),
            old(slab).map::<Pubkey>(m as int).contains_key(leaf.key),
            old(slab).map::<Pubkey>(m as int)[leaf.key] == *leaf,
        ensures
            final(slab).has_shelf::<R>(m as int, v as int, Set::empty()),
            final(slab).coming_slots::<R>(v as int) == old(slab).coming_slots::<R>(v as int),
            final(slab).pool::<Pubkey>(m as int) == old(slab).pool::<Pubkey>(m as int),
            final(slab).shelf::<R>(m as int, v as int) == old(slab).shelf::<R>(m as int, v as int).insert(
                leaf.key,
                Kept { owner: leaf.owner, value: *rec },
            ),
            old(slab).same_but_shelf::<R>(*final(slab), m as int, v as int),
    {
        let ghost (mi, vi) = (m as int, v as int);
        let ghost before = *slab;
        let ghost recs = slab.items::<R>(vi);
        let ghost head = slab.header_of::<SlotVec>(vi);
        let ghost n = slab.free_slots::<R>(mi, vi, Set::empty()) as nat;
        slab.set::<SlotVec, R>(v, leaf.slot() as usize, rec);
        proof {
            let after = slab.items::<R>(vi);
            before.law_apart_kept::<R, CritMapHeader, OwnedNode>(*slab, vi, mi);
            assert(slab.pool::<Pubkey>(mi) =~= before.pool::<Pubkey>(mi));
            lemma_free_list_frame(
                recs,
                recs,
                head.free_top as u64,
                n,
                head.next_index as int,
                head.next_index as int,
            );
            assert forall|h: u32| #[trigger] listed(recs, head.free_top as u64, n, h) implies after[h as int]
                == recs[h as int] by {
                assert(!before.is_free::<R>(mi, vi, Set::empty(), leaf.data));
            }
            lemma_free_list_frame(
                recs,
                after,
                head.free_top as u64,
                n,
                head.next_index as int,
                head.next_index as int,
            );
            assert forall|k: u128| #[trigger] slab.map::<Pubkey>(mi).contains_key(k) implies !slab.is_free::<R>(
                mi,
                vi,
                Set::empty(),
                slab.map::<Pubkey>(mi)[k].data,
            ) by {
                let d = before.map::<Pubkey>(mi)[k].data;
                assert(!before.is_free::<R>(mi, vi, Set::empty(), d));
                assert(listed(after, head.free_top as u64, n, d) == listed(
                    recs,
                    head.free_top as u64,
                    n,
                    d,
                ));
            }
            lemma_free_count(recs, head.free_top as u64, n, head.next_index as int);
            lemma_free_count(after, head.free_top as u64, n, head.next_index as int);
            assert(slab.coming_slots::<R>(vi) =~= before.coming_slots::<R>(vi));
            assert(slab.shelf::<R>(mi, vi) =~= before.shelf::<R>(mi, vi).insert(
                leaf.key,
                Kept { owner: leaf.owner, value: *rec },
            ));
        }
    }

    /// Adds a record with a new key in the held slot, if the map takes one more.
    pub fn put<R: Slotted>(slab: &mut SlabPageAlloc, m: u16, v: u16, key: u128, owner: &Pubkey, slot: u32, rec: &R) -> (r: bool)
        requires
            old(slab).has_shelf::<R>(m as int, v as int, set![slot]),
            !old(slab).map::<Pubkey>(m as int).contains_key(key),
        ensures
            r == SlabPageAlloc::takes_one_more(
                old(slab).shelf::<R>(m as int, v as int).len(),
                old(slab).slots::<Pubkey>(m as int),
            ),
            final(slab).coming_slots::<R>(v as int) == old(slab).coming_slots::<R>(v as int),
            r ==> final(slab).has_shelf::<R>(m as int, v as int, Set::empty()) && final(slab).shelf::<R>(
                m as int,
                v as int,
            ) == old(slab).shelf::<R>(m as int, v as int).insert(
                key,
                Kept { owner: *owner, value: *rec },
            ),
            !r ==> final(slab).has_shelf::<R>(m as int, v as int, set![slot]) && final(slab).shelf::<R>(
                m as int,
                v as int,
            ) == old(slab).shelf::<R>(m as int, v as int) && final(slab).map::<Pubkey>(m as int) == old(slab).map::<Pubkey>(
                m as int,
            ),
            old(slab).same_but_shelf::<R>(*final(slab), m as int, v as int),
    {
        let ghost (mi, vi) = (m as int, v as int);
        let ghost before = *slab;
        let ghost recs = slab.items::<R>(vi);
        let ghost head = slab.header_of::<SlotVec>(vi);
        let ghost n = slab.free_slots::<R>(mi, vi, set![slot]) as nat;
        proof {
            assert(before.shelf::<R>(mi, vi).dom() =~= before.map::<Pubkey>(mi).dom());
            assert(set![slot].contains(slot));
        }
        let leaf = OwnedLeaf::with_owner(key, slot, owner);
        match CritMapData::insert_leaf::<Pubkey>(slab, m, &leaf) {
            Err(_) => {
                proof {
                    before.law_apart_kept::<OwnedNode, SlotVec, R>(*slab, mi, vi);
                    assert(slab.shelf::<R>(mi, vi) =~= before.shelf::<R>(mi, vi));
                }
                false
            },
            Ok(_) => {
                let ghost between = *slab;
                proof {
                    before.law_apart_kept::<OwnedNode, SlotVec, R>(between, mi, vi);
                    assert(before.apart::<R, OwnedNode>(vi, mi));
                }
                slab.set::<SlotVec, R>(v, slot as usize, rec);
                proof {
                    let after = slab.items::<R>(vi);
                    between.law_apart_kept::<R, CritMapHeader, OwnedNode>(*slab, vi, mi);
                    assert(slab.pool::<Pubkey>(mi) =~= between.pool::<Pubkey>(mi));
                    before.pool::<Pubkey>(mi).lemma_map();
                    assert(slab.map::<Pubkey>(mi).len() == before.map::<Pubkey>(mi).len() + 1);
                    assert(slab.free_slots::<R>(mi, vi, Set::empty()) == n);
                    lemma_free_list_frame(
                        recs,
                        recs,
                        head.free_top as u64,
                        n,
                        head.next_index as int,
                        head.next_index as int,
                    );
                    assert forall|h: u32| #[trigger] listed(
                        recs,
                        head.free_top as u64,
                        n,
                        h,
                    ) implies after[h as int] == recs[h as int] by {
                        assert(!before.is_free::<R>(mi, vi, set![slot], slot));
                    }
                    lemma_free_list_frame(
                        recs,
                        after,
                        head.free_top as u64,
                        n,
                        head.next_index as int,
                        head.next_index as int,
                    );
                    assert forall|k: u128| #[trigger] slab.map::<Pubkey>(mi).contains_key(k) implies slab.map::<Pubkey>(
                        mi,
                    )[k].data < head.next_index && !slab.is_free::<R>(mi, vi, Set::empty(), slab.map::<Pubkey>(mi)[k].data) by {
                        let d = slab.map::<Pubkey>(mi)[k].data;
                        if k == key {
                            assert(!before.is_free::<R>(mi, vi, set![slot], slot));
                        } else {
                            assert(before.map::<Pubkey>(mi).contains_key(k));
                            assert(!before.is_free::<R>(mi, vi, set![slot], d));
                        }
                        assert(listed(after, head.free_top as u64, n, d) == listed(
                            recs,
                            head.free_top as u64,
                            n,
                            d,
                        ));
                    }
                    assert forall|k: u128, l: u128|
                        #![trigger slab.map::<Pubkey>(mi).contains_key(k), slab.map::<Pubkey>(mi).contains_key(l)]
                        slab.map::<Pubkey>(mi).contains_key(k) && slab.map::<Pubkey>(mi).contains_key(l) && k != l implies slab.map::<Pubkey>(
                        mi,
                    )[k].data != slab.map::<Pubkey>(mi)[l].data by {
                        if k != key {
                            assert(before.map::<Pubkey>(mi).contains_key(k));
                        }
                        if l != key {
                            assert(before.map::<Pubkey>(mi).contains_key(l));
                        }
                    }
                    lemma_free_count(recs, head.free_top as u64, n, head.next_index as int);
                    lemma_free_count(after, head.free_top as u64, n, head.next_index as int);
                    assert(slab.coming_slots::<R>(vi) =~= before.coming_slots::<R>(vi));
                    assert(slab.shelf::<R>(mi, vi) =~= before.shelf::<R>(mi, vi).insert(
                        key,
                        Kept { owner: *owner, value: *rec },
                    )) by {
                        assert forall|k: u128| before.map::<Pubkey>(mi).contains_key(k) implies after[#[trigger] before.map::<Pubkey>(
                            mi,
                        )[k].data as int] == recs[before.map::<Pubkey>(mi)[k].data as int] by {}
                    }
                }
                true
            },
        }
    }

    /// Removes the record of a key, and returns whether there was one.
    pub(crate) fn remove<R: Slotted>(slab: &mut SlabPageAlloc, m: u16, v: u16, key: u128, held: Ghost<Set<u32>>) -> (r: Option<
        OwnedLeaf,
    >)
        requires
            old(slab).has_shelf::<R>(m as int, v as int, held@),
        ensures
            r == old(slab).map::<Pubkey>(m as int).get(key),
            final(slab).has_shelf::<R>(m as int, v as int, held@),
            final(slab).coming_slots::<R>(v as int) == match r {
                Some(leaf) => seq![leaf.data] + old(slab).coming_slots::<R>(v as int),
                None => old(slab).coming_slots::<R>(v as int),
            },
            final(slab).shelf::<R>(m as int, v as int) == old(slab).shelf::<R>(m as int, v as int).remove(
                key,
            ),
            final(slab).map::<Pubkey>(m as int) == old(slab).map::<Pubkey>(m as int).remove(key),
            old(slab).same_but_shelf::<R>(*final(slab), m as int, v as int),
    {
        let ghost (mi, vi) = (m as int, v as int);
        let ghost before = *slab;
        let ghost recs = slab.items::<R>(vi);
        let ghost head0 = slab.header_of::<SlotVec>(vi);
        let ghost n = slab.free_slots::<R>(mi, vi, held@) as nat;
        let leaf: OwnedLeaf = match CritMapData::remove_by_key::<Pubkey>(slab, m, key) {
            Some(leaf) => leaf,
            None => {
                proof {
                    assert(slab.shelf::<R>(mi, vi).remove(key) =~= slab.shelf::<R>(mi, vi));
                }
                return None;
            },
        };
        let ghost gone = *slab;
        proof {
            before.law_apart_kept::<OwnedNode, SlotVec, R>(gone, mi, vi);
            before.pool::<Pubkey>(mi).lemma_map();
            assert(before.map::<Pubkey>(mi).contains_key(key));
        }
        let idx: u32 = leaf.slot();
        let mut head: SlotVec = slab.get_header::<SlotVec, R>(v);
        let free_top: u32 = head.free_top();
        let rec: R = slab.get::<SlotVec, R>(v, idx as usize);
        let rec: R = rec.linked(free_top as u64);
        slab.set::<SlotVec, R>(v, idx as usize, &rec);
        let ghost between = *slab;
        head.set_free_top(idx + 1);
        slab.set_header::<SlotVec, R>(v, &head);
        proof {
            recs[idx as int].lemma_linked(free_top as u64);
            let after = slab.items::<R>(vi);
            assert(gone.apart::<R, OwnedNode>(vi, mi));
            gone.law_apart_kept::<R, CritMapHeader, OwnedNode>(between, vi, mi);
            between.law_apart_kept::<R, CritMapHeader, OwnedNode>(*slab, vi, mi);
            assert(slab.pool::<Pubkey>(mi) =~= gone.pool::<Pubkey>(mi));
            assert(after == recs.update(idx as int, rec));
            lemma_free_list_frame(
                recs,
                recs,
                free_top as u64,
                n,
                head0.next_index as int,
                head0.next_index as int,
            );
            assert forall|h: u32| #[trigger] listed(recs, free_top as u64, n, h) implies after[h as int]
                == recs[h as int] by {
                assert(!before.is_free::<R>(mi, vi, held@, idx));
            }
            lemma_free_list_frame(
                recs,
                after,
                free_top as u64,
                n,
                head0.next_index as int,
                head0.next_index as int,
            );
            assert(slab.map::<Pubkey>(mi).len() == before.map::<Pubkey>(mi).len() - 1);
            assert(slab.free_slots::<R>(mi, vi, held@) == n + 1);
            assert(listed(after, free_top as u64, n, idx) == listed(recs, free_top as u64, n, idx));
            assert(free_list(after, (idx + 1) as u64, n + 1, head0.next_index as int));
            assert(distinct(after, (idx + 1) as u64, n + 1));
            lemma_free_count(recs, free_top as u64, n, head0.next_index as int);
            lemma_free_count(after, (idx + 1) as u64, n + 1, head0.next_index as int);
            assert(slab.coming_slots::<R>(vi) =~= seq![idx] + before.coming_slots::<R>(vi));
            assert forall|k: u128| #[trigger] slab.map::<Pubkey>(mi).contains_key(k) implies !slab.is_free::<R>(
                mi,
                vi,
                held@,
                slab.map::<Pubkey>(mi)[k].data,
            ) by {
                assert(before.map::<Pubkey>(mi).contains_key(k));
                let d = before.map::<Pubkey>(mi)[k].data;
                assert(!before.is_free::<R>(mi, vi, held@, d));
                assert(d != idx);
                assert(listed(after, free_top as u64, n, d) == listed(recs, free_top as u64, n, d));
            }
            assert forall|h: u32| #[trigger] held@.contains(h) implies !slab.is_free::<R>(
                mi,
                vi,
                held@,
                h,
            ) by {
                assert(!before.is_free::<R>(mi, vi, held@, h));
                assert(listed(after, free_top as u64, n, h) == listed(recs, free_top as u64, n, h));
                assert(h != idx);
            }
            assert forall|k: u128, l: u128|
                #![trigger slab.map::<Pubkey>(mi).contains_key(k), slab.map::<Pubkey>(mi).contains_key(l)]
                slab.map::<Pubkey>(mi).contains_key(k) && slab.map::<Pubkey>(mi).contains_key(l) && k != l implies slab.map::<Pubkey>(
                mi,
            )[k].data != slab.map::<Pubkey>(mi)[l].data by {
                assert(before.map::<Pubkey>(mi).contains_key(k));
                assert(before.map::<Pubkey>(mi).contains_key(l));
            }
            assert(slab.shelf::<R>(mi, vi) =~= before.shelf::<R>(mi, vi).remove(key)) by {
                assert forall|k: u128|
                    before.map::<Pubkey>(mi).contains_key(k) && k != key implies after[#[trigger] before.map::<Pubkey>(mi)[k].data as int]
                    == recs[before.map::<Pubkey>(mi)[k].data as int] by {}
            }
        }
        Some(leaf)
    }
}

} // verus!
