//! The order book: bids and asks by their keys.
//!
//! The upper half of an order's key is its price; the lower half makes an older order of the same
//! price come first, in ascending order of keys for asks and in descending order for bids.
use crate::crit_map::CritMapData;
use crate::market::{map_datatype, index_datatype, MarketState, Side, DT};
use crate::node::{CritMapHeader, OwnedLeaf, OwnedNode};
use crate::pubkey::Pubkey;
use crate::records::Order;
use crate::shelf::{Kept, Shelf};
use crate::slab::SlabPageAlloc;
use crate::slab_vec::SlotVec;
use vstd::prelude::*;

verus! {

/// The key of the order that is posted at `price` as number `seq`.
pub open spec fn order_key(side: Side, price: u64, seq: u64) -> u128 {
    ((price as u128) << 64) | (match side {
        Side::Bid => !seq,
        Side::Ask => seq,
    } as u128)
}

/// The price of the order with a key.
pub open spec fn key_price(key: u128) -> u64 {
    (key >> 64) as u64
}

impl Order {
    /// The key of a new order, which takes the next number.
    pub fn new_key(state: &mut MarketState, side: Side, price: u64) -> (r: u128)
        requires
            old(state).order_counter < u64::MAX,
        ensures
            r == order_key(side, price, old(state).order_counter),
            *final(state) == (MarketState {
                order_counter: (old(state).order_counter + 1) as u64,
                ..*old(state)
            }),
    {
        let seq: u64 = state.order_counter;
        state.order_counter = seq + 1;
        let upper: u128 = (price as u128) << 64;
        let lower: u64 = match side {
            Side::Bid => !seq,
            Side::Ask => seq,
        };
        upper | (lower as u128)
    }

    /// The price of the order with a key.
    pub fn price(key: u128) -> (r: u64)
        ensures
            r == key_price(key),
    {
        (key >> 64) as u64
    }

    /// Takes a slot for an order to come: the one freed last, or else the next that was never used.
    pub fn next_index(pt: &mut SlabPageAlloc, data_type: DT) -> (r: u32)
        requires
            data_type == DT::BidOrder || data_type == DT::AskOrder,
            old(pt).has_next_slot::<Order>(
                crate::market::spec_map_datatype(data_type) as int,
                crate::market::spec_index_datatype(data_type) as int,
            ),
        ensures
            forall|held: Set<u32>| #[trigger]
                old(pt).has_shelf::<Order>(
                    crate::market::spec_map_datatype(data_type) as int,
                    crate::market::spec_index_datatype(data_type) as int,
                    held,
                ) ==> !held.contains(r) && final(pt).has_shelf::<Order>(
                    crate::market::spec_map_datatype(data_type) as int,
                    crate::market::spec_index_datatype(data_type) as int,
                    held.insert(r),
                ),
            old(pt).coming_slots::<Order>(crate::market::spec_index_datatype(data_type) as int).len() > 0,
            r == old(pt).coming_slots::<Order>(crate::market::spec_index_datatype(data_type) as int)[0],
            final(pt).coming_slots::<Order>(crate::market::spec_index_datatype(data_type) as int) == old(pt).coming_slots::<Order>(
                crate::market::spec_index_datatype(data_type) as int,
            ).skip(1),
            r == if old(pt).header_of::<SlotVec>(crate::market::spec_index_datatype(data_type) as int).free_top == 0 {
                old(pt).header_of::<SlotVec>(crate::market::spec_index_datatype(data_type) as int).next_index
            } else {
                (old(pt).header_of::<SlotVec>(crate::market::spec_index_datatype(data_type) as int).free_top - 1) as u32
            },
            final(pt).header_of::<SlotVec>(crate::market::spec_index_datatype(data_type) as int) == if old(pt).header_of::<SlotVec>(
                crate::market::spec_index_datatype(data_type) as int,
            ).free_top == 0 {
                SlotVec { next_index: (r + 1) as u32, free_top: 0 }
            } else {
                SlotVec {
                    free_top: old(pt).items::<Order>(crate::market::spec_index_datatype(data_type) as int)[r as int].amount as u32,
                    ..old(pt).header_of::<SlotVec>(crate::market::spec_index_datatype(data_type) as int)
                }
            },
            final(pt).items::<Order>(crate::market::spec_index_datatype(data_type) as int) == old(pt).items::<Order>(
                crate::market::spec_index_datatype(data_type) as int,
            ),
            final(pt).map::<Pubkey>(crate::market::spec_map_datatype(data_type) as int) == old(pt).map::<Pubkey>(
                crate::market::spec_map_datatype(data_type) as int,
            ),
            final(pt).shelf::<Order>(
                crate::market::spec_map_datatype(data_type) as int,
                crate::market::spec_index_datatype(data_type) as int,
            ) == old(pt).shelf::<Order>(
                crate::market::spec_map_datatype(data_type) as int,
                crate::market::spec_index_datatype(data_type) as int,
            ),
            old(pt).same_but_shelf::<Order>(
                *final(pt),
                crate::market::spec_map_datatype(data_type) as int,
                crate::market::spec_index_datatype(data_type) as int,
            ),
    {
        Shelf::next_slot::<Order>(pt, map_datatype(data_type), index_datatype(data_type))
    }

    /// Gives back a slot that was taken and holds no order.
    pub fn free_index(pt: &mut SlabPageAlloc, data_type: DT, idx: u32)
        requires
            data_type == DT::BidOrder || data_type == DT::AskOrder,
            old(pt).holds_slot::<Order>(
                crate::market::spec_map_datatype(data_type) as int,
                crate::market::spec_index_datatype(data_type) as int,
                idx,
            ),
        ensures
            forall|held: Set<u32>| #[trigger]
                old(pt).has_shelf::<Order>(
                    crate::market::spec_map_datatype(data_type) as int,
                    crate::market::spec_index_datatype(data_type) as int,
                    held,
                ) && held.contains(idx) ==> final(pt).has_shelf::<Order>(
                    crate::market::spec_map_datatype(data_type) as int,
                    crate::market::spec_index_datatype(data_type) as int,
                    held.remove(idx),
                ),
            final(pt).coming_slots::<Order>(crate::market::spec_index_datatype(data_type) as int) == seq![idx] + old(pt).coming_slots::<Order>(crate::market::spec_index_datatype(data_type) as int),
            final(pt).header_of::<SlotVec>(crate::market::spec_index_datatype(data_type) as int) == (SlotVec {
                free_top: (idx + 1) as u32,
                ..old(pt).header_of::<SlotVec>(crate::market::spec_index_datatype(data_type) as int)
            }),
            final(pt).items::<Order>(crate::market::spec_index_datatype(data_type) as int) == old(pt).items::<Order>(
                crate::market::spec_index_datatype(data_type) as int,
            ).update(
                idx as int,
                Order {
                    amount: old(pt).header_of::<SlotVec>(crate::market::spec_index_datatype(data_type) as int).free_top as u64,
                    ..old(pt).items::<Order>(crate::market::spec_index_datatype(data_type) as int)[idx as int]
                },
            ),
            final(pt).map::<Pubkey>(crate::market::spec_map_datatype(data_type) as int) == old(pt).map::<Pubkey>(
                crate::market::spec_map_datatype(data_type) as int,
            ),
            final(pt).shelf::<Order>(
                crate::market::spec_map_datatype(data_type) as int,
                crate::market::spec_index_datatype(data_type) as int,
            ) == old(pt).shelf::<Order>(
                crate::market::spec_map_datatype(data_type) as int,
                crate::market::spec_index_datatype(data_type) as int,
            ),
            old(pt).same_but_shelf::<Order>(
                *final(pt),
                crate::market::spec_map_datatype(data_type) as int,
                crate::market::spec_index_datatype(data_type) as int,
            ),
    {
        Shelf::free_slot::<Order>(pt, map_datatype(data_type), index_datatype(data_type), idx);
    }
}

impl Side {
    /// The type of data of the orders on a side.
    pub open spec fn spec_orders(self) -> DT {
        match self {
            Side::Bid => DT::BidOrder,
            Side::Ask => DT::AskOrder,
        }
    }

    pub fn orders(&self) -> (r: DT)
        ensures
            r == self.spec_orders(),
    {
        match self {
            Side::Bid => DT::BidOrder,
            Side::Ask => DT::AskOrder,
        }
    }

    /// The entry of the map of a side's orders.
    pub open spec fn map_entry(self) -> int {
        crate::market::spec_map_datatype(self.spec_orders()) as int
    }

    /// The entry of a side's orders.
    pub open spec fn order_entry(self) -> int {
        crate::market::spec_index_datatype(self.spec_orders()) as int
    }
}

/// The account of the order book.
#[derive(Debug)]
pub struct OrderBook {
    pub key: Pubkey,
    pub slab: SlabPageAlloc,
}

impl OrderBook {
    /// Whether the two sides are sound and lie on different pages, and each has more slots for
    /// orders than its nodes can use up.
    #[verifier::opaque]
    pub open spec fn wf(self) -> bool {
        &&& self.slab.has_shelf::<Order>(0, 2, Set::empty())
        &&& self.slab.has_shelf::<Order>(1, 3, Set::empty())
        &&& self.slab.slots::<Pubkey>(0) <= self.slab.items::<Order>(2).len()
        &&& self.slab.slots::<Pubkey>(1) <= self.slab.items::<Order>(3).len()
        &&& 2 <= self.slab.items::<Order>(2).len()
        &&& 2 <= self.slab.items::<Order>(3).len()
        &&& self.apart()
    }

    pub open spec fn apart(self) -> bool {
        &&& self.slab.apart::<OwnedNode, OwnedNode>(0, 1)
        &&& self.slab.apart::<OwnedNode, Order>(0, 3)
        &&& self.slab.apart::<OwnedNode, Order>(1, 2)
        &&& self.slab.apart::<Order, Order>(2, 3)
    }

    /// The orders on a side by their keys.
    #[verifier::opaque]
    pub open spec fn orders(self, side: Side) -> Map<u128, Kept<Order>> {
        self.slab.shelf::<Order>(side.map_entry(), side.order_entry())
    }

    /// The slots for the nodes of a side.
    pub open spec fn slots(self, side: Side) -> nat {
        self.slab.slots::<Pubkey>(side.map_entry())
    }

    /// Whether `other` is this book but for the orders on `side`.
    pub open spec fn same_but(self, other: OrderBook, side: Side) -> bool {
        &&& other.key == self.key
        &&& other.orders(side.spec_opposite()) == self.orders(side.spec_opposite())
        &&& other.slots(Side::Bid) == self.slots(Side::Bid)
        &&& other.slots(Side::Ask) == self.slots(Side::Ask)
    }

    /// A sound change to one side leaves the book sound and the other side as it was.
    proof fn lemma_side_changed(self, other: OrderBook, side: Side)
        requires
            self.wf(),
            other.key == self.key,
            self.slab.same_but_shelf::<Order>(other.slab, side.map_entry(), side.order_entry()),
            other.slab.has_shelf::<Order>(side.map_entry(), side.order_entry(), Set::empty()),
        ensures
            other.wf(),
            self.same_but(other, side),
    {
        reveal(OrderBook::wf);
        reveal(OrderBook::orders);
        let (m, v) = (side.map_entry(), side.order_entry());
        let o = side.spec_opposite();
        let (p, w) = (o.map_entry(), o.order_entry());
        self.slab.lemma_kept_apart::<Order, CritMapHeader, OwnedNode>(other.slab, m, v, p);
        self.slab.lemma_kept_apart::<Order, SlotVec, Order>(other.slab, m, v, w);
        assert(other.slab.pool::<Pubkey>(p) =~= self.slab.pool::<Pubkey>(p));
        assert(other.orders(o) =~= self.orders(o));
        assert(other.slab.has_shelf::<Order>(p, w, Set::empty()));
    }

    /// The orders of a well-formed book are finitely many, and fit into the slots.
    pub proof fn lemma_size(self, side: Side)
        requires
            self.wf(),
        ensures
            self.orders(side).dom().finite(),
            2 * self.orders(side).len() <= self.slots(side) + 1,
            self.slots(side) >= 1,
            self.orders(side).len() < u32::MAX,
            self.orders(side).len() < self.slab.items::<Order>(side.order_entry()).len(),
            self.orders(side).dom() == self.slab.map::<Pubkey>(side.map_entry()).dom(),
            forall|k: u128| #[trigger]
                self.slab.map::<Pubkey>(side.map_entry()).contains_key(k) ==> self.slab.map::<Pubkey>(
                    side.map_entry(),
                )[k].key == k,
    {
        reveal(OrderBook::wf);
        reveal(OrderBook::orders);
        let pool = self.slab.pool::<Pubkey>(side.map_entry());
        pool.lemma_map();
        self.slab.lemma_usable::<CritMapHeader, OwnedNode>(side.map_entry());
        assert(self.orders(side).dom() =~= pool.map().dom());
    }

    /// The leaf and the order with a key.
    pub fn get(&self, side: Side, key: u128) -> (r: Option<(OwnedLeaf, Order)>)
        requires
            self.wf(),
        ensures
            r is Some <==> self.orders(side).contains_key(key),
            r matches Some((leaf, order)) ==> {
                &&& leaf.key == key
                &&& leaf == self.slab.map::<Pubkey>(side.map_entry())[key]
                &&& self.orders(side)[key] == (Kept { owner: leaf.owner, value: order })
            },
    {
        proof {
            reveal(OrderBook::wf);
            reveal(OrderBook::orders);
        }
        let dt: DT = side.orders();
        Shelf::get::<Order>(&self.slab, map_datatype(dt), index_datatype(dt), key)
    }

    /// Replaces the order with a key.
    pub fn set(&mut self, side: Side, leaf: &OwnedLeaf, order: &Order)
        requires
            old(self).wf(),
            old(self).orders(side).contains_key(leaf.key),
            old(self).slab.map::<Pubkey>(side.map_entry())[leaf.key] == *leaf,
        ensures
            final(self).wf(),
            old(self).same_but(*final(self), side),
            final(self).orders(side) == old(self).orders(side).insert(
                leaf.key,
                Kept { owner: leaf.owner, value: *order },
            ),
    {
        proof {
            reveal(OrderBook::wf);
            reveal(OrderBook::orders);
        }
        let dt: DT = side.orders();
        let ghost before = *self;
        Shelf::set::<Order>(&mut self.slab, map_datatype(dt), index_datatype(dt), leaf, order);
        proof {
            before.lemma_side_changed(*self, side);
        }
    }

    /// Removes the order with a key, and returns its leaf.
    pub fn remove(&mut self, side: Side, key: u128) -> (r: Option<OwnedLeaf>)
        requires
            old(self).wf(),
        ensures
            final(self).wf(),
            old(self).same_but(*final(self), side),
            r is Some <==> old(self).orders(side).contains_key(key),
            final(self).orders(side) == old(self).orders(side).remove(key),
    {
        proof {
            reveal(OrderBook::wf);
            reveal(OrderBook::orders);
        }
        let dt: DT = side.orders();
        let ghost before = *self;
        let r = Shelf::remove::<Order>(
            &mut self.slab,
            map_datatype(dt),
            index_datatype(dt),
            key,
            Ghost(Set::empty()),
        );
        proof {
            before.lemma_side_changed(*self, side);
        }
        r
    }

    /// Whether a side takes one more order.
    pub fn has_room(&self, side: Side) -> (r: bool)
        requires
            self.wf(),
        ensures
            r == SlabPageAlloc::takes_one_more(self.orders(side).len(), self.slots(side)),
    {
        proof {
            reveal(OrderBook::wf);
            reveal(OrderBook::orders);
        }
        let m: u16 = map_datatype(side.orders());
        proof {
            self.lemma_size(side);
            self.slab.pool::<Pubkey>(m as int).lemma_map();
        }
        let head: CritMapHeader = CritMapData::header::<Pubkey>(&self.slab, m);
        let slots: usize = CritMapData::len::<Pubkey>(&self.slab, m);
        2 * head.leaf_count + 1 <= slots as u64
    }

    /// Adds an order. Where the side is full, the order with key `evict` goes first.
    pub fn post(&mut self, side: Side, key: u128, owner: &Pubkey, order: &Order, evict: Option<u128>)
        requires
            old(self).wf(),
            !old(self).orders(side).contains_key(key),
            match evict {
                None => SlabPageAlloc::takes_one_more(
                    old(self).orders(side).len(),
                    old(self).slots(side),
                ),
                Some(k) => old(self).orders(side).contains_key(k) && !SlabPageAlloc::takes_one_more(
                    old(self).orders(side).len(),
                    old(self).slots(side),
                ),
            },
        ensures
            final(self).wf(),
            old(self).same_but(*final(self), side),
            final(self).orders(side) == match evict {
                None => old(self).orders(side),
                Some(k) => old(self).orders(side).remove(k),
            }.insert(key, Kept { owner: *owner, value: *order }),
    {
        proof {
            reveal(OrderBook::wf);
            reveal(OrderBook::orders);
        }
        let dt: DT = side.orders();
        let m: u16 = map_datatype(dt);
        let v: u16 = index_datatype(dt);
        let ghost before = *self;
        proof {
            self.lemma_size(side);
            assert(self.slab.has_shelf::<Order>(m as int, v as int, Set::empty()));
        }
        let slot: u32 = Order::next_index(&mut self.slab, dt);
        let ghost held: Set<u32> = set![slot];
        let entered: bool = Shelf::put::<Order>(&mut self.slab, m, v, key, owner, slot, order);
        if !entered {
            if let Some(k) = evict {
                let ghost full = self.slab;
                Shelf::remove::<Order>(&mut self.slab, m, v, k, Ghost(held));
                proof {
                    assert(self.slab.shelf::<Order>(m as int, v as int).len() == before.orders(
                        side,
                    ).len() - 1);
                }
                Shelf::put::<Order>(&mut self.slab, m, v, key, owner, slot, order);
            }
        }
        proof {
            before.lemma_side_changed(*self, side);
        }
    }

    /// The leaves of a side in ascending order of their keys.
    pub fn list(&self, side: Side) -> (r: Vec<OwnedLeaf>)
        requires
            self.wf(),
        ensures
            r@ == crate::sorted::in_order(self.slab.map::<Pubkey>(side.map_entry())),
            r@.len() == self.orders(side).len(),
    {
        proof {
            reveal(OrderBook::wf);
            reveal(OrderBook::orders);
        }
        proof {
            self.lemma_size(side);
        }
        CritMapData::traverse::<Pubkey>(&self.slab, map_datatype(side.orders()))
    }

    /// The order that comes last on a side: the lowest bid or the highest ask.
    pub fn worst(&self, side: Side) -> (r: Option<OwnedLeaf>)
        requires
            self.wf(),
        ensures
            r is Some <==> self.orders(side).len() > 0,
            r matches Some(leaf) ==> {
                &&& self.orders(side).contains_key(leaf.key)
                &&& leaf == self.slab.map::<Pubkey>(side.map_entry())[leaf.key]
                &&& forall|k: u128| #[trigger]
                    self.orders(side).contains_key(k) ==> match side {
                        Side::Bid => leaf.key <= k,
                        Side::Ask => k <= leaf.key,
                    }
            },
    {
        proof {
            reveal(OrderBook::wf);
            reveal(OrderBook::orders);
        }
        let m: u16 = map_datatype(side.orders());
        proof {
            self.lemma_size(side);
        }
        match CritMapData::find_min_max::<Pubkey>(&self.slab, m, side == Side::Ask) {
            Some(h) => CritMapData::index::<Pubkey>(&self.slab, m, h as usize).as_leaf(),
            None => None,
        }
    }
}

} // verus!
