//! The trade log: the last trades, in a ring.
use crate::market::ErrorCode;
use crate::pubkey::Pubkey;
use crate::records::{TradeEntry, TradeLogHeader};
use crate::slab::SlabPageAlloc;
use vstd::prelude::*;

verus! {

/// The account of the trade log.
#[derive(Debug)]
pub struct TradeLog {
    pub key: Pubkey,
    pub slab: SlabPageAlloc,
}

/// What a trade log holds: the number of trades so far, and the last of them.
#[verifier::ext_equal]
pub struct Trades {
    pub count: u64,
    pub max: u64,
    pub entries: Seq<TradeEntry>,
}

impl Trades {
    /// The place of the trade that comes after `count` others.
    pub open spec fn place(self) -> int {
        self.count as int % self.max as int
    }

    /// The log with one more trade, which gets the next number.
    pub open spec fn record(self, entry: TradeEntry) -> Result<Trades, ErrorCode> {
        if self.count == u64::MAX {
            Err(ErrorCode::Overflow)
        } else {
            Ok(
                Trades {
                    count: (self.count + 1) as u64,
                    max: self.max,
                    entries: self.entries.update(
                        self.place(),
                        TradeEntry { trade_id: (self.count + 1) as u64, ..entry },
                    ),
                },
            )
        }
    }
}

impl TradeLog {
    /// Whether the log has a place for every trade that it keeps.
    #[verifier::opaque]
    pub open spec fn wf(self) -> bool {
        &&& self.slab.laid_out::<TradeLogHeader, TradeEntry>(0)
        &&& 0 < self.slab.header_of::<TradeLogHeader>(0).entry_max
        &&& self.slab.header_of::<TradeLogHeader>(0).entry_max <= self.slab.items::<TradeEntry>(0).len()
    }

    pub open spec fn trades(self) -> Trades {
        Trades {
            count: self.slab.header_of::<TradeLogHeader>(0).trade_count,
            max: self.slab.header_of::<TradeLogHeader>(0).entry_max,
            entries: self.slab.items::<TradeEntry>(0),
        }
    }

    /// Logs a trade in the place of the oldest one, and returns its number.
    pub fn record(&mut self, entry: &TradeEntry) -> (r: Result<u64, ErrorCode>)
        requires
            old(self).wf(),
        ensures
            final(self).wf(),
            final(self).key == old(self).key,
            match old(self).trades().record(*entry) {
                Ok(after) => r == Ok::<u64, ErrorCode>(after.count) && final(self).trades() == after,
                Err(e) => r == Err::<u64, ErrorCode>(e) && *final(self) == *old(self),
            },
    {
        proof {
            reveal(TradeLog::wf);
        }
        let ghost before = self.trades();
        let mut header: TradeLogHeader = self.slab.get_header::<TradeLogHeader, TradeEntry>(0);
        let log_index: u64 = header.trade_count % header.entry_max;
        if header.trade_count == u64::MAX {
            return Err(ErrorCode::Overflow);
        }
        let next_trade: u64 = header.trade_count + 1;
        header.trade_count = next_trade;
        self.slab.set_header::<TradeLogHeader, TradeEntry>(0, &header);
        let mut log_entry: TradeEntry = *entry;
        log_entry.trade_id = next_trade;
        self.slab.set::<TradeLogHeader, TradeEntry>(0, log_index as usize, &log_entry);
        assert(self.trades() =~= before.record(*entry)->Ok_0);
        Ok(next_trade)
    }
}

} // verus!
