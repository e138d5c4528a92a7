//! Copies of the accounts, on which an instruction can be tried.
use crate::codec::Record;
use crate::exchange::Exchange;
use crate::market::Side;
use crate::node::{CritMapHeader, OwnedNode};
use crate::order_book::OrderBook;
use crate::pubkey::Pubkey;
use crate::records::{AccountEntry, Order, TradeEntry, TradeLogHeader};
use crate::settlement::SettleLog;
use crate::shelf::Slotted;
use crate::slab::SlabPageAlloc;
use crate::slab_vec::SlotVec;
use crate::trade_log::TradeLog;
use vstd::prelude::*;

verus! {

impl SlabPageAlloc {
    /// Whether two slabs have the same table and the same pages.
    pub open spec fn same_as(self, other: SlabPageAlloc) -> bool {
        &&& other.table == self.table
        &&& other.types == self.types
        &&& other.pages@ == self.pages@
    }

    pub fn copy(&self) -> (r: SlabPageAlloc)
        ensures
            self.same_as(r),
    {
        let pages = self.pages.clone();
        assert(pages@ =~= self.pages@);
        SlabPageAlloc { table: self.table, types: self.types, pages }
    }

    /// Slabs that are the same hold the same items.
    pub proof fn lemma_same_items<H: Record, T: Record>(self, other: SlabPageAlloc, t: int)
        requires
            self.same_as(other),
        ensures
            other.laid_out::<H, T>(t) == self.laid_out::<H, T>(t),
            other.items::<T>(t) == self.items::<T>(t),
            other.header_of::<H>(t) == self.header_of::<H>(t),
    {
        assert(other.items::<T>(t) =~= self.items::<T>(t));
    }

    /// Slabs that are the same hold the same shelves.
    pub proof fn lemma_same_shelf<R: Slotted>(self, other: SlabPageAlloc, m: int, v: int)
        requires
            self.same_as(other),
        ensures
            other.pool::<Pubkey>(m) == self.pool::<Pubkey>(m),
            other.items::<R>(v) == self.items::<R>(v),
            other.shelf::<R>(m, v) == self.shelf::<R>(m, v),
            other.has_shelf::<R>(m, v, Set::empty()) == self.has_shelf::<R>(m, v, Set::empty()),
    {
        self.lemma_same_items::<CritMapHeader, OwnedNode>(other, m);
        self.lemma_same_items::<SlotVec, R>(other, v);
        assert(other.pool::<Pubkey>(m) =~= self.pool::<Pubkey>(m));
        assert(other.shelf::<R>(m, v) =~= self.shelf::<R>(m, v));
    }
}

impl OrderBook {
    pub fn copy(&self) -> (r: OrderBook)
        ensures
            self.wf() ==> r.wf(),
            r.key == self.key,
            forall|side: Side| #[trigger] r.orders(side) == self.orders(side),
            forall|side: Side| #[trigger] r.slots(side) == self.slots(side),
    {
        let slab = self.slab.copy();
        proof {
            reveal(OrderBook::wf);
            reveal(OrderBook::orders);
            self.slab.lemma_same_shelf::<Order>(slab, 0, 2);
            self.slab.lemma_same_shelf::<Order>(slab, 1, 3);
            assert forall|side: Side| slab.shelf::<Order>(side.map_entry(), side.order_entry())
                == self.slab.shelf::<Order>(side.map_entry(), side.order_entry()) by {}
        }
        OrderBook { key: self.key, slab }
    }
}

impl TradeLog {
    pub fn copy(&self) -> (r: TradeLog)
        ensures
            self.wf() ==> r.wf(),
            r.key == self.key,
            r.trades() == self.trades(),
    {
        let slab = self.slab.copy();
        proof {
            reveal(TradeLog::wf);
            self.slab.lemma_same_items::<TradeLogHeader, TradeEntry>(slab, 0);
        }
        TradeLog { key: self.key, slab }
    }
}

impl SettleLog {
    pub fn copy(&self) -> (r: SettleLog)
        ensures
            self.wf() ==> r.wf(),
            r.view() == self.view(),
    {
        let slab = self.slab.copy();
        proof {
            reveal(SettleLog::wf);
            self.slab.lemma_same_shelf::<AccountEntry>(slab, 0, 1);
        }
        let r = SettleLog { key: self.key, header: self.header, slab };
        assert(r.view() =~= self.view());
        r
    }
}

impl Exchange {
    pub fn copy(&self) -> (r: Exchange)
        ensures
            self.sound() ==> r.sound(),
            r.ledger() == self.ledger(),
    {
        let events = self.events.clone();
        assert(events@ =~= self.events@);
        let r = Exchange {
            state: self.state,
            orders: self.orders.copy(),
            trade_log: self.trade_log.copy(),
            settle_a: self.settle_a.copy(),
            settle_b: self.settle_b.copy(),
            events,
        };
        assert(r.ledger() =~= self.ledger());
        r
    }
}

} // verus!
