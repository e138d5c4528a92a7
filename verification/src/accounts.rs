//! Making the accounts of a market.
use crate::codec::Record;
use crate::market::{MAX_ACCOUNTS, MAX_ORDERS, MAX_TRADES};
use crate::node::{CritMapHeader, OwnedNode};
use crate::order_book::OrderBook;
use crate::pubkey::Pubkey;
use crate::records::{AccountEntry, AccountsHeader, Order, TradeEntry, TradeLogHeader};
use crate::settlement::SettleLog;
use crate::slab::{SlabPageAlloc, PAGE_SIZE, PAGE_TABLE_SIZE};
use crate::slab_vec::SlotVec;
use crate::trade_log::TradeLog;
use vstd::prelude::*;

verus! {

/// Bytes of the head of a settlement log.
pub const ACCOUNTS_HEADER_SIZE: usize = 100;

/// Pages of the order book.
pub const ORDER_PAGES: usize = 6;

/// Pages that a settlement log needs at least.
pub const SETTLE_PAGES: usize = 6;

/// Pages of the trade log.
pub const TRADE_PAGES: usize = 1;

/// An account that has been given its space.
#[derive(Debug)]
pub struct NewAccount {
    pub key: Pubkey,
    /// Where the first byte lies.
    pub address: usize,
    pub data: Vec<u8>,
}

impl NewAccount {
    /// Whether the account has a number of pages, behind `head` bytes and the page table.
    pub open spec fn has_pages(self, head: int, pages: int) -> bool {
        &&& head + PAGE_TABLE_SIZE + pages * PAGE_SIZE <= self.data@.len()
        &&& self.address + self.data@.len() <= usize::MAX
    }

    /// Whether an account is there and has the space of a settlement log.
    pub open spec fn makes_log(account: Option<NewAccount>) -> bool {
        account matches Some(a) && a.has_pages(ACCOUNTS_HEADER_SIZE as int, SETTLE_PAGES as int)
    }

    /// The pages of the account behind `head` bytes and the page table.
    pub open spec fn pages(self, head: int) -> int {
        (self.data@.len() - head - PAGE_TABLE_SIZE) / PAGE_SIZE as int
    }
}

/// How many nodes the map of a settlement log with so many pages can have.
pub open spec fn log_slots(pages: int) -> nat {
    if pages == 6 {
        1363
    } else {
        MAX_ACCOUNTS as nat
    }
}

proof fn lemma_padding(slab: SlabPageAlloc)
    requires
        slab.table.top_unused_page < slab.pages@.len(),
    ensures
        1 <= slab.padding::<CritMapHeader>() <= 8,
        slab.padding::<SlotVec>() == 1,
        slab.padding::<TradeLogHeader>() == 1,
{
    let a = slab.pages@[slab.table.top_unused_page as int].address as int;
    assert(0 <= a % 8 < 8);
    assert(a % 1 == 0);
}

impl SettleLog {
    /// A settlement log without accounts.
    pub fn create(account: NewAccount, market: &Pubkey, prev: &Pubkey, next: &Pubkey) -> (r: SettleLog)
        requires
            account.has_pages(ACCOUNTS_HEADER_SIZE as int, SETTLE_PAGES as int),
        ensures
            r.wf(),
            r.view() == (crate::settlement::LogView {
                key: account.key,
                header: AccountsHeader { market: *market, prev: *prev, next: *next, items: 0 },
                entries: Map::empty(),
                slots: log_slots(account.pages(ACCOUNTS_HEADER_SIZE as int)),
            }),
    {
        proof {
            reveal(SettleLog::wf);
        }
        let header = AccountsHeader { market: *market, prev: *prev, next: *next, items: 0 };
        let len: usize = account.data.len();
        let rest: &[u8] = vstd::slice::slice_subrange(
            account.data.as_slice(),
            ACCOUNTS_HEADER_SIZE,
            len,
        );
        let mut slab = SlabPageAlloc::new(rest, account.address + ACCOUNTS_HEADER_SIZE);
        let ghost count = slab.pages@.len();
        proof {
            assert(count >= 6 && count == account.pages(100));
        }
        slab.setup_page_table();
        proof {
            lemma_padding(slab);
            let p = slab.padding::<CritMapHeader>();
            assert((16384 - (32 + p)) / 53 == 308);
            assert(slab.pages_needed::<CritMapHeader, OwnedNode>(1500) == 5);
        }
        slab.allocate::<CritMapHeader, OwnedNode>(0, MAX_ACCOUNTS as usize);
        proof {
            lemma_padding(slab);
            assert(SlotVec::spec_size() == 8 && AccountEntry::spec_size() == 24);
            assert((16384 - (8 + 1)) / 24int == 682);
            assert(slab.pages_needed::<SlotVec, AccountEntry>(1500) == 3);
        }
        slab.allocate::<SlotVec, AccountEntry>(1, MAX_ACCOUNTS as usize);
        let ghost blank = slab;
        proof {
            assert(slab.page_count::<OwnedNode>(0) == 5);
            assert(slab.page_count::<AccountEntry>(1) == 3);
            assert(slab.laid_out::<CritMapHeader, OwnedNode>(0));
            assert(slab.laid_out::<SlotVec, AccountEntry>(1));
            assert(slab.apart::<OwnedNode, AccountEntry>(0, 1));
        }
        slab.set_header::<CritMapHeader, OwnedNode>(0, &CritMapHeader::new());
        let ghost between = slab;
        proof {
            blank.law_apart_kept::<OwnedNode, SlotVec, AccountEntry>(slab, 0, 1);
        }
        slab.set_header::<SlotVec, AccountEntry>(1, &SlotVec::new());
        proof {
            assert(between.apart::<AccountEntry, OwnedNode>(1, 0));
            between.law_apart_kept::<AccountEntry, CritMapHeader, OwnedNode>(slab, 1, 0);
            slab.law_blank_shelf::<AccountEntry>(0, 1);
            assert(slab.usable::<OwnedNode>(0) == 1500);
            assert(slab.types[1].per_page(24) == 682);
            assert(slab.usable::<AccountEntry>(1) == if count == 6 {
                682int
            } else if count == 7 {
                1364int
            } else {
                1500int
            });
        }
        let r = SettleLog { key: account.key, header, slab };
        assert(r.view().slots == log_slots(count as int));
        r
    }
}

impl OrderBook {
    /// An order book without orders.
    pub fn create(account: NewAccount) -> (r: OrderBook)
        requires
            account.has_pages(0, ORDER_PAGES as int),
        ensures
            r.wf(),
            r.key == account.key,
            r.orders(crate::market::Side::Bid) == Map::<u128, crate::shelf::Kept<Order>>::empty(),
            r.orders(crate::market::Side::Ask) == Map::<u128, crate::shelf::Kept<Order>>::empty(),
            r.slots(crate::market::Side::Bid) == MAX_ORDERS,
            r.slots(crate::market::Side::Ask) == MAX_ORDERS,
    {
        let mut slab = SlabPageAlloc::new(account.data.as_slice(), account.address);
        proof {
            reveal(OrderBook::wf);
            reveal(OrderBook::orders);
            assert(slab.pages@.len() >= 6);
        }
        slab.setup_page_table();
        proof {
            lemma_padding(slab);
            let p = slab.padding::<CritMapHeader>();
            assert((16384 - (32 + p)) / 53 == 308);
            assert(slab.pages_needed::<CritMapHeader, OwnedNode>(500) == 2);
        }
        slab.allocate::<CritMapHeader, OwnedNode>(0, MAX_ORDERS as usize);
        proof {
            lemma_padding(slab);
            let p = slab.padding::<CritMapHeader>();
            assert((16384 - (32 + p)) / 53 == 308);
            assert(slab.pages_needed::<CritMapHeader, OwnedNode>(500) == 2);
        }
        slab.allocate::<CritMapHeader, OwnedNode>(1, MAX_ORDERS as usize);
        proof {
            lemma_padding(slab);
            assert(SlotVec::spec_size() == 8 && Order::spec_size() == 16);
            assert((16384 - (8 + 1)) / 16int == 1023);
            assert(slab.pages_needed::<SlotVec, Order>(500) == 1);
        }
        slab.allocate::<SlotVec, Order>(2, MAX_ORDERS as usize);
        proof {
            lemma_padding(slab);
            assert(SlotVec::spec_size() == 8 && Order::spec_size() == 16);
            assert((16384 - (8 + 1)) / 16int == 1023);
            assert(slab.pages_needed::<SlotVec, Order>(500) == 1);
        }
        slab.allocate::<SlotVec, Order>(3, MAX_ORDERS as usize);
        let ghost s0 = slab;
        proof {
            assert(s0.page_count::<OwnedNode>(0) == 2);
            assert(s0.page_count::<OwnedNode>(1) == 2);
            assert(s0.page_count::<Order>(2) == 1);
            assert(s0.page_count::<Order>(3) == 1);
            assert(s0.laid_out::<CritMapHeader, OwnedNode>(0));
            assert(s0.laid_out::<CritMapHeader, OwnedNode>(1));
            assert(s0.laid_out::<SlotVec, Order>(2));
            assert(s0.laid_out::<SlotVec, Order>(3));
        }
        slab.set_header::<CritMapHeader, OwnedNode>(0, &CritMapHeader::new());
        let ghost s1 = slab;
        proof {
            s0.law_apart_kept::<OwnedNode, CritMapHeader, OwnedNode>(s1, 0, 1);
            s0.law_apart_kept::<OwnedNode, SlotVec, Order>(s1, 0, 2);
            s0.law_apart_kept::<OwnedNode, SlotVec, Order>(s1, 0, 3);
        }
        slab.set_header::<CritMapHeader, OwnedNode>(1, &CritMapHeader::new());
        let ghost s2 = slab;
        proof {
            s1.law_apart_kept::<OwnedNode, CritMapHeader, OwnedNode>(s2, 1, 0);
            s1.law_apart_kept::<OwnedNode, SlotVec, Order>(s2, 1, 2);
            s1.law_apart_kept::<OwnedNode, SlotVec, Order>(s2, 1, 3);
        }
        slab.set_header::<SlotVec, Order>(2, &SlotVec::new());
        let ghost s3 = slab;
        proof {
            s2.law_apart_kept::<Order, CritMapHeader, OwnedNode>(s3, 2, 0);
            s2.law_apart_kept::<Order, CritMapHeader, OwnedNode>(s3, 2, 1);
            s2.law_apart_kept::<Order, SlotVec, Order>(s3, 2, 3);
        }
        slab.set_header::<SlotVec, Order>(3, &SlotVec::new());
        proof {
            s3.law_apart_kept::<Order, CritMapHeader, OwnedNode>(slab, 3, 0);
            s3.law_apart_kept::<Order, CritMapHeader, OwnedNode>(slab, 3, 1);
            s3.law_apart_kept::<Order, SlotVec, Order>(slab, 3, 2);
            slab.law_blank_shelf::<Order>(0, 2);
            slab.law_blank_shelf::<Order>(1, 3);
            assert(slab.types[2].per_page(16) == 1023);
            assert(slab.types[3].per_page(16) == 1023);
            assert(slab.usable::<OwnedNode>(0) == 500);
            assert(slab.usable::<OwnedNode>(1) == 500);
            assert(slab.usable::<Order>(2) == 500);
            assert(slab.usable::<Order>(3) == 500);
        }
        OrderBook { key: account.key, slab }
    }
}

impl TradeLog {
    /// A trade log without trades.
    pub fn create(account: NewAccount) -> (r: TradeLog)
        requires
            account.has_pages(0, TRADE_PAGES as int),
        ensures
            r.wf(),
            r.key == account.key,
            r.trades().count == 0,
            r.trades().max == MAX_TRADES,
            r.trades().entries.len() == MAX_TRADES,
    {
        let mut slab = SlabPageAlloc::new(account.data.as_slice(), account.address);
        slab.setup_page_table();
        proof {
            reveal(TradeLog::wf);
            lemma_padding(slab);
            assert(TradeLogHeader::spec_size() == 16 && TradeEntry::spec_size() == 138);
            assert((16384 - (16 + 1)) / 138int == 118);
            assert(slab.pages_needed::<TradeLogHeader, TradeEntry>(100) == 1);
        }
        slab.allocate::<TradeLogHeader, TradeEntry>(0, MAX_TRADES as usize);
        proof {
            assert(slab.page_count::<TradeEntry>(0) == 1);
            assert(slab.laid_out::<TradeLogHeader, TradeEntry>(0));
            assert(slab.types[0].per_page(138) == 118);
            assert(slab.usable::<TradeEntry>(0) == 100);
        }
        slab.set_header::<TradeLogHeader, TradeEntry>(
            0,
            &TradeLogHeader { trade_count: 0, entry_max: MAX_TRADES as u64 },
        );
        TradeLog { key: account.key, slab }
    }
}

} // verus!
