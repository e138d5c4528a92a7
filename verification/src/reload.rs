//! Moving the accounts of a market to and from bytes.
use crate::codec::Record;
use crate::market::Side;
use crate::node::{CritMapHeader, OwnedNode};
use crate::order_book::OrderBook;
use crate::pubkey::Pubkey;
use crate::records::{AccountEntry, AccountsHeader, Order, TradeEntry, TradeLogHeader};
use crate::settlement::SettleLog;
use crate::shelf::Slotted;
use crate::slab::{PageData, SlabPageAlloc, TypePages, PAGE_SIZE, PAGE_TABLE_SIZE, TYPE_MAX};
use crate::slab_vec::SlotVec;
use crate::trade_log::TradeLog;
use crate::accounts::ACCOUNTS_HEADER_SIZE;
use vstd::prelude::*;

verus! {

impl SlabPageAlloc {
    /// Whether `other` holds the same, though maybe at another place.
    pub open spec fn same_content(self, other: SlabPageAlloc) -> bool {
        &&& other.table == self.table
        &&& other.types == self.types
        &&& other.pages@.len() == self.pages@.len()
        &&& forall|k: int|
            0 <= k < self.pages@.len() ==> (#[trigger] other.pages@[k]).data@ == self.pages@[k].data@
    }

    proof fn lemma_types_bytes(types: Seq<TypePages>, n: nat, i: int)
        requires
            0 <= i < n <= types.len(),
        ensures
            Self::types_bytes(types, n).len() == 56 * n,
            Self::types_bytes(types, n).subrange(56 * i, 56 * i + 56) == types[i].encoded(),
        decreases n,
    {
        let all = Self::types_bytes(types, n);
        let front = Self::types_bytes(types, (n - 1) as nat);
        types[n - 1].lemma_round_trip();
        if n > 1 {
            Self::lemma_types_bytes(types, (n - 1) as nat, 0);
        }
        assert(front.len() == 56 * (n - 1));
        if i < n - 1 {
            Self::lemma_types_bytes(types, (n - 1) as nat, i);
            assert(all.subrange(56 * i, 56 * i + 56) =~= front.subrange(56 * i, 56 * i + 56));
        } else {
            assert(all.subrange(56 * i, 56 * i + 56) =~= types[i].encoded());
        }
    }

    proof fn lemma_pages_len(pages: Seq<PageData>, n: nat)
        ensures
            Self::pages_bytes(pages, n).len() == PAGE_SIZE * n,
        decreases n,
    {
        if n > 0 {
            Self::lemma_pages_len(pages, (n - 1) as nat);
        }
    }

    proof fn lemma_pages_bytes(pages: Seq<PageData>, n: nat, k: int)
        requires
            0 <= k < n <= pages.len(),
        ensures
            Self::pages_bytes(pages, n).subrange(PAGE_SIZE * k, PAGE_SIZE * k + PAGE_SIZE)
                == pages[k].data@,
        decreases n,
    {
        let all = Self::pages_bytes(pages, n);
        let front = Self::pages_bytes(pages, (n - 1) as nat);
        Self::lemma_pages_len(pages, n);
        Self::lemma_pages_len(pages, (n - 1) as nat);
        if k < n - 1 {
            Self::lemma_pages_bytes(pages, (n - 1) as nat, k);
            assert(all.subrange(PAGE_SIZE * k, PAGE_SIZE * k + PAGE_SIZE) =~= front.subrange(
                PAGE_SIZE * k,
                PAGE_SIZE * k + PAGE_SIZE,
            ));
        } else {
            assert(all.subrange(PAGE_SIZE * k, PAGE_SIZE * k + PAGE_SIZE) =~= pages[k].data@);
        }
    }

    /// What is read back from the bytes of a slab, and up to one page of other bytes behind them,
    /// holds the same, wherever the bytes lie.
    pub proof fn law_slab_reload(self, other: SlabPageAlloc, tail: Seq<u8>, address: int)
        requires
            other.holds(self.bytes() + tail, address),
            tail.len() < PAGE_SIZE,
        ensures
            self.same_content(other),
            self.bytes().len() == PAGE_TABLE_SIZE + PAGE_SIZE * self.pages@.len(),
    {
        let bytes = self.bytes() + tail;
        let n = self.pages@.len();
        let types = Self::types_bytes(self.types@, TYPE_MAX as nat);
        let pages = Self::pages_bytes(self.pages@, n);
        self.table.lemma_round_trip();
        Self::lemma_types_bytes(self.types@, TYPE_MAX as nat, 0);
        Self::lemma_pages_len(self.pages@, n);
        assert(bytes.subrange(0, 2) =~= self.table.encoded());
        assert forall|i: int| 0 <= i < TYPE_MAX implies #[trigger] other.types@[i] == self.types@[i] by {
            Self::lemma_types_bytes(self.types@, TYPE_MAX as nat, i);
            assert(bytes.subrange(2 + 56 * i, 2 + 56 * i + 56) =~= types.subrange(
                56 * i,
                56 * i + 56,
            ));
            self.types[i].lemma_round_trip();
            assert(other.types[i] == TypePages::decoded(bytes.subrange(2 + 56 * i, 2 + 56 * i + 56)));
        }
        assert(other.types@ =~= self.types@);
        assert(other.types =~= self.types);
        assert(other.pages@.len() == n) by (nonlinear_arith)
            requires
                other.pages@.len() == (bytes.len() - PAGE_TABLE_SIZE) / PAGE_SIZE as int,
                bytes.len() == PAGE_TABLE_SIZE + PAGE_SIZE * n + tail.len(),
                tail.len() < PAGE_SIZE,
        ;
        assert forall|k: int| 0 <= k < n implies (#[trigger] other.pages@[k]).data@
            == self.pages@[k].data@ by {
            Self::lemma_pages_bytes(self.pages@, n, k);
            assert(bytes.subrange(
                PAGE_TABLE_SIZE + k * PAGE_SIZE,
                PAGE_TABLE_SIZE + k * PAGE_SIZE + PAGE_SIZE,
            ) =~= pages.subrange(PAGE_SIZE * k, PAGE_SIZE * k + PAGE_SIZE));
        }
    }

    /// A type that is laid out in one is laid out in the other, with the same header and items.
    proof fn lemma_reloaded_type<H: Record, T: Record>(self, other: SlabPageAlloc, t: int)
        requires
            self.same_content(other),
            self.laid_out::<H, T>(t),
        ensures
            other.laid_out::<H, T>(t),
            other.header_of::<H>(t) == self.header_of::<H>(t),
            other.items::<T>(t) == self.items::<T>(t),
            other.first_page(t) == self.first_page(t),
            other.page_count::<T>(t) == self.page_count::<T>(t),
    {
        self.lemma_usable::<H, T>(t);
        assert forall|i: int| 0 <= i < self.usable::<T>(t) implies #[trigger] other.item::<T>(t, i)
            == self.item::<T>(t, i) by {
            self.lemma_item_page::<H, T>(t, i);
        }
        assert(other.items::<T>(t) =~= self.items::<T>(t));
    }

    /// A shelf in one is a shelf in the other, with the same records.
    proof fn lemma_reloaded_shelf<R: Slotted>(self, other: SlabPageAlloc, m: int, v: int)
        requires
            self.same_content(other),
            self.has_shelf::<R>(m, v, Set::empty()),
        ensures
            other.has_shelf::<R>(m, v, Set::empty()),
            other.shelf::<R>(m, v) == self.shelf::<R>(m, v),
            other.slots::<Pubkey>(m) == self.slots::<Pubkey>(m),
            other.items::<R>(v) == self.items::<R>(v),
    {
        self.lemma_reloaded_type::<CritMapHeader, OwnedNode>(other, m);
        self.lemma_reloaded_type::<SlotVec, R>(other, v);
        assert(other.pool::<Pubkey>(m) == self.pool::<Pubkey>(m));
        assert(other.shelf::<R>(m, v) =~= self.shelf::<R>(m, v));
    }
}

impl SettleLog {
    /// The bytes of the account.
    pub open spec fn bytes(self) -> Seq<u8> {
        self.header.encoded() + self.slab.bytes()
    }

    /// The log that the bytes of an account hold; `address` is where the first of them lies.
    pub fn load(key: &Pubkey, data: &[u8], address: usize) -> (r: SettleLog)
        requires
            ACCOUNTS_HEADER_SIZE + PAGE_TABLE_SIZE <= data.len(),
            address + data.len() <= usize::MAX,
        ensures
            r.key == *key,
            r.header == AccountsHeader::decoded(data@.subrange(0, ACCOUNTS_HEADER_SIZE as int)),
            r.slab.holds(
                data@.subrange(ACCOUNTS_HEADER_SIZE as int, data@.len() as int),
                address + ACCOUNTS_HEADER_SIZE,
            ),
    {
        let top: &[u8] = vstd::slice::slice_subrange(data, 0, ACCOUNTS_HEADER_SIZE);
        let rest: &[u8] = vstd::slice::slice_subrange(data, ACCOUNTS_HEADER_SIZE, data.len());
        SettleLog {
            key: *key,
            header: AccountsHeader::decode(top),
            slab: SlabPageAlloc::new(rest, address + ACCOUNTS_HEADER_SIZE),
        }
    }

    /// The bytes of the account.
    pub fn store(&self) -> (r: Vec<u8>)
        ensures
            r@ == self.bytes(),
    {
        let mut out: Vec<u8> = self.header.encode();
        let mut rest: Vec<u8> = self.slab.to_bytes();
        out.append(&mut rest);
        out
    }

    /// A log that is read back from its bytes, and up to one page of other bytes behind them, is
    /// sound and holds what it held.
    pub proof fn law_reload(self, other: SettleLog, tail: Seq<u8>, address: int)
        requires
            self.wf(),
            tail.len() < PAGE_SIZE,
            other.key == self.key,
            other.header == AccountsHeader::decoded(
                (self.bytes() + tail).subrange(0, ACCOUNTS_HEADER_SIZE as int),
            ),
            other.slab.holds(
                (self.bytes() + tail).subrange(
                    ACCOUNTS_HEADER_SIZE as int,
                    (self.bytes() + tail).len() as int,
                ),
                address,
            ),
        ensures
            other.wf(),
            other.view() == self.view(),
    {
        reveal(SettleLog::wf);
        let bytes = self.bytes() + tail;
        self.header.lemma_round_trip();
        assert(bytes.subrange(0, 100) =~= self.header.encoded());
        assert(bytes.subrange(100, bytes.len() as int) =~= self.slab.bytes() + tail);
        self.slab.law_slab_reload(other.slab, tail, address);
        self.slab.lemma_reloaded_shelf::<AccountEntry>(other.slab, 0, 1);
    }
}

impl OrderBook {
    /// The book that the bytes of an account hold; `address` is where the first of them lies.
    pub fn load(key: &Pubkey, data: &[u8], address: usize) -> (r: OrderBook)
        requires
            PAGE_TABLE_SIZE <= data.len(),
            address + data.len() <= usize::MAX,
        ensures
            r.key == *key,
            r.slab.holds(data@, address as int),
    {
        OrderBook { key: *key, slab: SlabPageAlloc::new(data, address) }
    }

    /// The bytes of the account.
    pub fn store(&self) -> (r: Vec<u8>)
        ensures
            r@ == self.slab.bytes(),
    {
        self.slab.to_bytes()
    }

    /// A book that is read back from its bytes, and up to one page of other bytes behind them, is
    /// sound and holds what it held.
    pub proof fn law_reload(self, other: OrderBook, tail: Seq<u8>, address: int)
        requires
            self.wf(),
            tail.len() < PAGE_SIZE,
            other.key == self.key,
            other.slab.holds(self.slab.bytes() + tail, address),
        ensures
            other.wf(),
            other.orders(Side::Bid) == self.orders(Side::Bid),
            other.orders(Side::Ask) == self.orders(Side::Ask),
            other.slots(Side::Bid) == self.slots(Side::Bid),
            other.slots(Side::Ask) == self.slots(Side::Ask),
    {
        reveal(OrderBook::wf);
        reveal(OrderBook::orders);
        self.slab.law_slab_reload(other.slab, tail, address);
        self.slab.lemma_reloaded_shelf::<Order>(other.slab, 0, 2);
        self.slab.lemma_reloaded_shelf::<Order>(other.slab, 1, 3);
    }
}

impl TradeLog {
    /// The log that the bytes of an account hold; `address` is where the first of them lies.
    pub fn load(key: &Pubkey, data: &[u8], address: usize) -> (r: TradeLog)
        requires
            PAGE_TABLE_SIZE <= data.len(),
            address + data.len() <= usize::MAX,
        ensures
            r.key == *key,
            r.slab.holds(data@, address as int),
    {
        TradeLog { key: *key, slab: SlabPageAlloc::new(data, address) }
    }

    /// The bytes of the account.
    pub fn store(&self) -> (r: Vec<u8>)
        ensures
            r@ == self.slab.bytes(),
    {
        self.slab.to_bytes()
    }

    /// A log that is read back from its bytes, and up to one page of other bytes behind them, is
    /// sound and holds what it held.
    pub proof fn law_reload(self, other: TradeLog, tail: Seq<u8>, address: int)
        requires
            self.wf(),
            tail.len() < PAGE_SIZE,
            other.key == self.key,
            other.slab.holds(self.slab.bytes() + tail, address),
        ensures
            other.wf(),
            other.trades() == self.trades(),
    {
        reveal(TradeLog::wf);
        self.slab.law_slab_reload(other.slab, tail, address);
        self.slab.lemma_reloaded_type::<TradeLogHeader, TradeEntry>(other.slab, 0);
    }
}

} // verus!
