//! What the steps of an order leave as it is.
use crate::ledger::{Ledger, Taker, Tally};
use crate::market::Side;
use crate::pubkey::Pubkey;
use crate::records::Order;
use vstd::prelude::*;

verus! {

impl Ledger {
    /// Whether `other` has no order that this ledger does not have, and the same counter of orders,
    /// accounts and sizes.
    pub open spec fn within(self, other: Ledger) -> bool {
        &&& other.state.order_counter == self.state.order_counter
        &&& other.orders_key == self.orders_key
        &&& other.trade_log_key == self.trade_log_key
        &&& other.bid_slots == self.bid_slots
        &&& other.ask_slots == self.ask_slots
        &&& other.log_a.key == self.log_a.key
        &&& other.log_b.key == self.log_b.key
        &&& forall|side: Side, key: u128| #[trigger]
            other.side(side).contains_key(key) ==> self.side(side).contains_key(key)
    }

    pub proof fn lemma_within_trans(self, b: Ledger, c: Ledger)
        requires
            self.within(b),
            b.within(c),
        ensures
            self.within(c),
    {
        assert forall|side: Side, key: u128| #[trigger] c.side(side).contains_key(key) implies self.side(
            side,
        ).contains_key(key) by {
            assert(b.side(side).contains_key(key));
        }
    }

    pub proof fn lemma_within_numbered(self, b: Ledger)
        requires
            self.within(b),
            self.numbered(),
        ensures
            b.numbered(),
    {
        assert forall|side: Side, key: u128| #[trigger] b.side(side).contains_key(
            key,
        ) implies crate::ledger::key_number(side, key) < b.state.order_counter by {
            assert(self.side(side).contains_key(key));
        }
    }

    pub proof fn lemma_filled_within(self, taker: Taker, fill: crate::ledger::Fill)
        requires
            self.filled(taker, fill) is Ok,
            self.side(taker.side.spec_opposite()).contains_key(fill.key),
        ensures
            self.within(self.filled(taker, fill)->Ok_0),
            self.filled(taker, fill)->Ok_0.side(taker.side) == self.side(taker.side),
            forall|k: u128|
                k != fill.key && self.side(taker.side.spec_opposite()).contains_key(k)
                    ==> #[trigger] self.filled(taker, fill)->Ok_0.side(
                    taker.side.spec_opposite(),
                ).contains_key(k),
            forall|k: u128|
                k != fill.key && self.side(taker.side.spec_opposite()).contains_key(k)
                    ==> #[trigger] self.filled(taker, fill)->Ok_0.side(
                    taker.side.spec_opposite(),
                )[k] == self.side(taker.side.spec_opposite())[k],
    {
        let after = self.filled(taker, fill)->Ok_0;
        assert forall|side: Side, key: u128| #[trigger] after.side(side).contains_key(key) implies self.side(
            side,
        ).contains_key(key) by {
            match side {
                Side::Bid => {},
                Side::Ask => {},
            }
        }
    }

    /// Matching adds no order.
    pub proof fn lemma_walk_within(
        self,
        taker: Taker,
        tally: Tally,
        keys: Seq<u128>,
        i: int,
        expired: Seq<u128>,
    )
        requires
            self.walk(taker, tally, keys, i, expired) is Ok,
            0 <= i,
            keys.no_duplicates(),
            forall|j: int|
                i <= j < keys.len() ==> self.side(taker.side.spec_opposite()).contains_key(
                    #[trigger] keys[j],
                ),
        ensures
            self.within(self.walk(taker, tally, keys, i, expired)->Ok_0.ledger),
            self.walk(taker, tally, keys, i, expired)->Ok_0.ledger.side(taker.side) == self.side(taker.side),
            taker.preview ==> self.walk(taker, tally, keys, i, expired)->Ok_0.ledger == self,
        decreases keys.len() - i,
    {
        let maker = taker.side.spec_opposite();
        if i < keys.len() {
            let key = keys[i];
            let kept = self.side(maker)[key];
            if crate::ledger::is_expired(kept.value, taker.now) {
                self.lemma_walk_within(taker, tally, keys, i + 1, expired.push(key));
            } else if kept.owner == taker.user {
                self.lemma_walk_within(taker, tally, keys, i + 1, expired);
            } else if crate::ledger::within_limit(
                taker.side,
                taker.limit,
                crate::order_book::key_price(key),
            ) {
                let fill = taker.fill(tally, key, kept)->Ok_0;
                let next = taker.tallied(tally, fill)->Ok_0;
                let after = if taker.preview {
                    self
                } else {
                    self.filled(taker, fill)->Ok_0
                };
                assert(fill.key == key);
                if !taker.preview {
                    self.lemma_filled_within(taker, fill);
                }
                if !fill.last {
                    assert forall|j: int| i + 1 <= j < keys.len() implies after.side(maker).contains_key(
                        #[trigger] keys[j],
                    ) by {
                        assert(keys[j] != key);
                    }
                    after.lemma_walk_within(taker, next, keys, i + 1, expired);
                    self.lemma_within_trans(
                        after,
                        self.walk(taker, tally, keys, i, expired)->Ok_0.ledger,
                    );
                }
            }
        }
    }

    /// The keys that are matched are those of the other side, each once.
    pub proof fn lemma_best_first(side: Side, orders: Map<u128, crate::shelf::Kept<Order>>)
        requires
            orders.dom().finite(),
        ensures
            crate::ledger::best_first(side, orders).no_duplicates(),
            crate::ledger::best_first(side, orders).len() == orders.len(),
            forall|k: u128| #[trigger]
                orders.contains_key(k) <==> crate::ledger::best_first(side, orders).contains(k),
            forall|i: int|
                0 <= i < orders.len() ==> orders.contains_key(
                    #[trigger] crate::ledger::best_first(side, orders)[i],
                ),
            forall|i: int, j: int|
                0 <= i < j < orders.len() ==> match side {
                    Side::Bid => crate::ledger::best_first(side, orders)[i]
                        > crate::ledger::best_first(side, orders)[j],
                    Side::Ask => crate::ledger::best_first(side, orders)[i]
                        < crate::ledger::best_first(side, orders)[j],
                },
    {
        crate::sorted::lemma_ascending_exists(orders.dom());
        let up = crate::sorted::ascending(orders.dom());
        crate::sorted::lemma_ascending(up, orders.dom());
        let keys = crate::ledger::best_first(side, orders);
        let n = up.len();
        assert forall|i: int| 0 <= i < n implies #[trigger] keys[i] == match side {
            Side::Bid => up[n - 1 - i],
            Side::Ask => up[i],
        } by {}
        assert forall|i: int| 0 <= i < n implies orders.contains_key(#[trigger] keys[i]) by {
            assert(up.contains(keys[i])) by {
                match side {
                    Side::Bid => {
                        assert(up[n - 1 - i] == keys[i]);
                    },
                    Side::Ask => {
                        assert(up[i] == keys[i]);
                    },
                }
            }
            assert(orders.dom().contains(keys[i]));
        }
        assert forall|k: u128| #[trigger] orders.contains_key(k) implies keys.contains(k) by {
            assert(orders.dom().contains(k));
            let i = choose|i: int| 0 <= i < n && up[i] == k;
            match side {
                Side::Bid => {
                    assert(keys[n - 1 - i] == k);
                },
                Side::Ask => {
                    assert(keys[i] == k);
                },
            }
        }
    }

    pub proof fn lemma_matched_within(self, taker: Taker, to_fill: u64)
        requires
            self.matched(taker, to_fill) is Ok,
            self.side(taker.side.spec_opposite()).dom().finite(),
        ensures
            self.within(self.matched(taker, to_fill)->Ok_0.ledger),
            self.matched(taker, to_fill)->Ok_0.ledger.side(taker.side) == self.side(taker.side),
            taker.preview ==> self.matched(taker, to_fill)->Ok_0.ledger == self,
    {
        reveal(Ledger::matched);
        let maker = taker.side.spec_opposite();
        Self::lemma_best_first(maker, self.side(maker));
        self.lemma_walk_within(
            taker,
            Tally { to_fill, filled: 0, paid: 0, fee: 0 },
            crate::ledger::best_first(maker, self.side(maker)),
            0,
            Seq::empty(),
        );
    }

    pub proof fn lemma_expired_within(self, market: Pubkey, side: Side, key: u128, factor: u64, now: i64)
        requires
            self.expired_one(market, side, key, factor, now) is Ok,
        ensures
            self.within(self.expired_one(market, side, key, factor, now)->Ok_0),
            self.expired_one(market, side, key, factor, now)->Ok_0.side(side.spec_opposite()) == self.side(
                side.spec_opposite(),
            ),
    {
        let after = self.expired_one(market, side, key, factor, now)->Ok_0;
        assert forall|s: Side, k: u128| #[trigger] after.side(s).contains_key(k) implies self.side(
            s,
        ).contains_key(k) by {
            match s {
                Side::Bid => {},
                Side::Ask => {},
            }
        }
    }

    /// Sweeping adds no order.
    pub proof fn lemma_swept_within(self, taker: Taker, expired: Seq<u128>, count: nat)
        requires
            self.swept(taker, expired, count) is Ok,
        ensures
            self.within(self.swept(taker, expired, count)->Ok_0),
            self.swept(taker, expired, count)->Ok_0.side(taker.side) == self.side(taker.side),
        decreases expired.len(),
    {
        if expired.len() > 0 && count < crate::market::MAX_EXPIRATIONS {
            let maker = taker.side.spec_opposite();
            self.lemma_expired_within(taker.market, maker, expired.last(), taker.factor, taker.now);
            let after = self.expired_one(
                taker.market,
                maker,
                expired.last(),
                taker.factor,
                taker.now,
            )->Ok_0;
            after.lemma_swept_within(taker, expired.drop_last(), count + 1);
            self.lemma_within_trans(after, self.swept(taker, expired, count)->Ok_0);
        }
    }
}

} // verus!
