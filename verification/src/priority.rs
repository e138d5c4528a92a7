//! In which order posted orders are matched, and which of them are not.
use crate::ledger::{Fill, Ledger, Taker, Tally};
use crate::market::{Event, MatchEvent, Side};
use crate::pubkey::Pubkey;
use crate::records::Order;
use crate::shelf::Kept;
use vstd::prelude::*;

verus! {

/// Whether an order with the first price and number goes before one with the second: the better
/// price goes first, and of orders with the same price the earlier one.
pub open spec fn goes_before(side: Side, price: u64, number: u64, other_price: u64, other_number: u64) -> bool {
    match side {
        Side::Bid => price > other_price || price == other_price && number < other_number,
        Side::Ask => price < other_price || price == other_price && number < other_number,
    }
}

/// The keys of orders sort by price and time: bids downwards, asks upwards.
pub proof fn law_keys_by_price_and_time(side: Side, price: u64, number: u64, other_price: u64, other_number: u64)
    ensures
        goes_before(side, price, number, other_price, other_number) <==> match side {
            Side::Bid => crate::order_book::order_key(side, price, number)
                > crate::order_book::order_key(side, other_price, other_number),
            Side::Ask => crate::order_book::order_key(side, price, number)
                < crate::order_book::order_key(side, other_price, other_number),
        },
{
    let a: u64 = match side {
        Side::Bid => !number,
        Side::Ask => number,
    };
    let b: u64 = match side {
        Side::Bid => !other_number,
        Side::Ask => other_number,
    };
    assert((((price as u128) << 64) | (a as u128)) < (((other_price as u128) << 64) | (b as u128)) <==> (
    price < other_price || price == other_price && a < b)) by (bit_vector);
    assert((((price as u128) << 64) | (a as u128)) > (((other_price as u128) << 64) | (b as u128)) <==> (
    price > other_price || price == other_price && a > b)) by (bit_vector);
    assert(!number > !other_number <==> number < other_number) by (bit_vector);
}

/// Orders get different keys if their prices or their numbers differ.
pub proof fn law_keys_differ(side: Side, price: u64, number: u64, other_price: u64, other_number: u64)
    requires
        crate::order_book::order_key(side, price, number) == crate::order_book::order_key(
            side,
            other_price,
            other_number,
        ),
    ensures
        price == other_price,
        number == other_number,
{
    crate::ledger::lemma_order_key(side, price, number);
    crate::ledger::lemma_order_key(side, other_price, other_number);
}

/// Every key is that of its price and number.
proof fn lemma_key_parts(side: Side, key: u128)
    ensures
        crate::order_book::order_key(
            side,
            crate::order_book::key_price(key),
            crate::ledger::key_number(side, key),
        ) == key,
{
    assert((((((key >> 64) as u64) as u128) << 64) | ((key as u64) as u128)) == key) by (bit_vector);
    let low: u64 = key as u64;
    assert(!(!low) == low) by (bit_vector);
}

/// The order that is ahead by its key goes before the other.
pub proof fn lemma_ahead(side: Side, key: u128, other: u128)
    requires
        match side {
            Side::Bid => key > other,
            Side::Ask => key < other,
        },
    ensures
        goes_before(
            side,
            crate::order_book::key_price(key),
            crate::ledger::key_number(side, key),
            crate::order_book::key_price(other),
            crate::ledger::key_number(side, other),
        ),
{
    lemma_key_parts(side, key);
    lemma_key_parts(side, other);
    law_keys_by_price_and_time(
        side,
        crate::order_book::key_price(key),
        crate::ledger::key_number(side, key),
        crate::order_book::key_price(other),
        crate::ledger::key_number(side, other),
    );
}

/// Orders are matched by price and time: each one goes before those that are matched after it, and
/// all orders of the side are there.
pub proof fn law_best_first(side: Side, orders: Map<u128, Kept<Order>>)
    requires
        orders.dom().finite(),
    ensures
        crate::ledger::best_first(side, orders).to_set() == orders.dom(),
        crate::ledger::best_first(side, orders).no_duplicates(),
        forall|i: int, j: int|
            #![trigger crate::ledger::best_first(side, orders)[i], crate::ledger::best_first(side, orders)[j]]
            0 <= i < j < crate::ledger::best_first(side, orders).len() ==> goes_before(
                side,
                crate::order_book::key_price(crate::ledger::best_first(side, orders)[i]),
                crate::ledger::key_number(side, crate::ledger::best_first(side, orders)[i]),
                crate::order_book::key_price(crate::ledger::best_first(side, orders)[j]),
                crate::ledger::key_number(side, crate::ledger::best_first(side, orders)[j]),
            ),
{
    Ledger::lemma_best_first(side, orders);
    let keys = crate::ledger::best_first(side, orders);
    assert forall|k: u128| keys.to_set().contains(k) <==> orders.dom().contains(k) by {
        assert(orders.contains_key(k) <==> keys.contains(k));
    }
    assert(keys.to_set() =~= orders.dom());
    assert forall|i: int, j: int| 0 <= i < j < keys.len() implies #[trigger] goes_before(
        side,
        crate::order_book::key_price(keys[i]),
        crate::ledger::key_number(side, keys[i]),
        crate::order_book::key_price(keys[j]),
        crate::ledger::key_number(side, keys[j]),
    ) by {
        lemma_key_parts(side, keys[i]);
        lemma_key_parts(side, keys[j]);
        law_keys_by_price_and_time(
            side,
            crate::order_book::key_price(keys[i]),
            crate::ledger::key_number(side, keys[i]),
            crate::order_book::key_price(keys[j]),
            crate::ledger::key_number(side, keys[j]),
        );
        assert(match side {
            Side::Bid => keys[i] > keys[j],
            Side::Ask => keys[i] < keys[j],
        });
    }
}

/// Whether a trade is one that the taker may make with the orders of a ledger: at a price within
/// the limit, with an order of someone else that has not expired and has at least that much.
pub open spec fn is_fair(ledger: Ledger, taker: Taker, trade: MatchEvent) -> bool {
    let orders = ledger.side(taker.side.spec_opposite());
    &&& trade.taker == taker.user
    &&& trade.taker_side == taker.side.spec_code()
    &&& orders.contains_key(trade.maker_order_id)
    &&& trade.price == crate::order_book::key_price(trade.maker_order_id)
    &&& crate::ledger::within_limit(taker.side, taker.limit, trade.price)
    &&& trade.maker == orders[trade.maker_order_id].owner
    &&& trade.maker != taker.user
    &&& !crate::ledger::is_expired(orders[trade.maker_order_id].value, taker.now)
    &&& trade.amount <= orders[trade.maker_order_id].value.amount
}

/// Whether all trades that `after` reports and `before` does not are fair.
pub open spec fn all_fair(ledger: Ledger, taker: Taker, before: Seq<Event>, after: Seq<Event>) -> bool {
    &&& before.is_prefix_of(after)
    &&& forall|k: int|
        before.len() <= k < after.len() ==> match #[trigger] after[k] {
            Event::Match(trade) => is_fair(ledger, taker, trade),
            _ => true,
        }
}

proof fn lemma_fair_trans(ledger: Ledger, taker: Taker, a: Seq<Event>, b: Seq<Event>, c: Seq<Event>)
    requires
        all_fair(ledger, taker, a, b),
        all_fair(ledger, taker, b, c),
    ensures
        all_fair(ledger, taker, a, c),
{
    assert(c.subrange(0, a.len() as int) =~= a) by {
        assert forall|i: int| 0 <= i < a.len() implies c[i] == a[i] by {
            assert(b[i] == a[i]);
            assert(c[i] == b[i]);
        }
    }
    assert forall|k: int| a.len() <= k < c.len() implies match #[trigger] c[k] {
        Event::Match(trade) => is_fair(ledger, taker, trade),
        _ => true,
    } by {
        if k < b.len() {
            assert(b[k] == c[k]);
        }
    }
}

/// A fill is no more than the posted order has, nor than is to be filled.
pub proof fn lemma_fill_bounds(taker: Taker, tally: Tally, key: u128, kept: Kept<Order>)
    requires
        taker.fill(tally, key, kept) is Ok,
    ensures
        taker.fill(tally, key, kept)->Ok_0.quantity <= kept.value.amount,
        taker.by_quantity ==> taker.fill(tally, key, kept)->Ok_0.quantity <= tally.to_fill,
        !taker.by_quantity ==> taker.fill(tally, key, kept)->Ok_0.tokens <= tally.to_fill,
        taker.fill(tally, key, kept)->Ok_0.key == key,
        taker.fill(tally, key, kept)->Ok_0.owner == kept.owner,
        taker.fill(tally, key, kept)->Ok_0.price == crate::order_book::key_price(key),
{
    let price = crate::order_book::key_price(key);
    let amount = kept.value.amount;
    if !taker.by_quantity {
        let tokens = crate::math::cost(amount, price, taker.factor)->Ok_0;
        if tokens > tally.to_fill {
            let q = crate::math::buys(tally.to_fill, price, taker.factor)->Ok_0;
            let t = tally.to_fill as int;
            let f = taker.factor as int;
            let p = price as int;
            let a = amount as int;
            assert(q <= a) by (nonlinear_arith)
                requires
                    p > 0,
                    f > 0,
                    a >= 0,
                    t >= 0,
                    tokens as int == (a * p) / f,
                    t < tokens,
                    q as int == (t * f) / p,
            {
                let d = (a * p) / f;
                assert(f * d <= a * p) by (nonlinear_arith)
                    requires
                        f > 0,
                        d == (a * p) / f,
                ;
                assert(t * f <= f * d) by (nonlinear_arith)
                    requires
                        t < d,
                        f > 0,
                ;
                let e = (t * f) / p;
                assert(p * e <= t * f) by (nonlinear_arith)
                    requires
                        p > 0,
                        e == (t * f) / p,
                ;
                assert(p * e <= a * p);
                assert(e <= a) by (nonlinear_arith)
                    requires
                        p > 0,
                        p * e <= a * p,
                ;
            }
        }
    }
}

impl Ledger {
    proof fn lemma_settle_events(self, market: Pubkey, owner: Pubkey, mkt_token: bool, amount: u64, now: i64, ledger: Ledger, taker: Taker)
        requires
            self.settle(market, owner, mkt_token, amount, now) is Ok,
        ensures
            all_fair(
                ledger,
                taker,
                self.events,
                self.settle(market, owner, mkt_token, amount, now)->Ok_0.events,
            ),
    {
        let after = self.settle(market, owner, mkt_token, amount, now)->Ok_0;
        assert(after.events =~= self.events.push(after.events.last()));
        assert(after.events.subrange(0, self.events.len() as int) =~= self.events);
    }

    proof fn lemma_filled_events(self, taker: Taker, fill: Fill, ledger: Ledger)
        requires
            self.filled(taker, fill) is Ok,
            forall|trade: MatchEvent|
                trade.maker_order_id == fill.key && trade.maker == fill.owner && trade.price == fill.price
                    && trade.amount == fill.quantity && trade.taker == taker.user && trade.taker_side
                    == taker.side.spec_code() ==> #[trigger] is_fair(ledger, taker, trade),
        ensures
            all_fair(ledger, taker, self.events, self.filled(taker, fill)->Ok_0.events),
    {
        let logged = self.logged(taker, fill)->Ok_0;
        let reduced = logged.reduced(taker.side.spec_opposite(), fill)->Ok_0;
        assert(logged.events =~= self.events.push(logged.events.last()));
        assert(logged.events.last() is Match);
        assert(is_fair(ledger, taker, logged.events.last()->Match_0));
        assert(logged.events.subrange(0, self.events.len() as int) =~= self.events);
        assert(all_fair(ledger, taker, self.events, logged.events));
        assert(reduced.events == logged.events);
        let state = if taker.pays_by_fill {
            crate::ledger::deposited(
                reduced.state,
                taker.pays_market_tokens(),
                taker.price_of(fill),
            )->Ok_0
        } else {
            reduced.state
        };
        let entered = reduced.with_state(
            crate::market::MarketState { last_price: fill.price, last_ts: taker.now, ..state },
        );
        entered.lemma_settle_events(
            taker.market,
            fill.owner,
            taker.pays_market_tokens(),
            taker.price_of(fill),
            taker.now,
            ledger,
            taker,
        );
        lemma_fair_trans(
            ledger,
            taker,
            self.events,
            logged.events,
            self.filled(taker, fill)->Ok_0.events,
        );
    }

    proof fn lemma_walk_fair(
        self,
        taker: Taker,
        tally: Tally,
        keys: Seq<u128>,
        i: int,
        expired: Seq<u128>,
        ledger: Ledger,
    )
        requires
            self.walk(taker, tally, keys, i, expired) is Ok,
            0 <= i,
            keys.no_duplicates(),
            forall|j: int|
                i <= j < keys.len() ==> self.side(taker.side.spec_opposite()).contains_key(
                    #[trigger] keys[j],
                ) && ledger.side(taker.side.spec_opposite()).contains_key(keys[j]) && self.side(
                    taker.side.spec_opposite(),
                )[keys[j]] == ledger.side(taker.side.spec_opposite())[keys[j]],
        ensures
            all_fair(
                ledger,
                taker,
                self.events,
                self.walk(taker, tally, keys, i, expired)->Ok_0.ledger.events,
            ),
        decreases keys.len() - i,
    {
        let maker = taker.side.spec_opposite();
        assert(self.events.subrange(0, self.events.len() as int) =~= self.events);
        if i < keys.len() {
            let key = keys[i];
            let kept = self.side(maker)[key];
            if crate::ledger::is_expired(kept.value, taker.now) {
                self.lemma_walk_fair(taker, tally, keys, i + 1, expired.push(key), ledger);
            } else if kept.owner == taker.user {
                self.lemma_walk_fair(taker, tally, keys, i + 1, expired, ledger);
            } else if crate::ledger::within_limit(
                taker.side,
                taker.limit,
                crate::order_book::key_price(key),
            ) {
                let fill = taker.fill(tally, key, kept)->Ok_0;
                let next = taker.tallied(tally, fill)->Ok_0;
                lemma_fill_bounds(taker, tally, key, kept);
                let after = if taker.preview {
                    self
                } else {
                    self.filled(taker, fill)->Ok_0
                };
                if !taker.preview {
                    assert forall|trade: MatchEvent|
                        trade.maker_order_id == fill.key && trade.maker == fill.owner && trade.price
                            == fill.price && trade.amount == fill.quantity && trade.taker == taker.user
                            && trade.taker_side == taker.side.spec_code() implies #[trigger] is_fair(
                        ledger,
                        taker,
                        trade,
                    ) by {}
                    self.lemma_filled_events(taker, fill, ledger);
                    self.lemma_filled_within(taker, fill);
                }
                if !fill.last {
                    assert forall|j: int| i + 1 <= j < keys.len() implies after.side(maker).contains_key(
                        #[trigger] keys[j],
                    ) && ledger.side(maker).contains_key(keys[j]) && after.side(maker)[keys[j]]
                        == ledger.side(maker)[keys[j]] by {
                        assert(keys[j] != key);
                    }
                    after.lemma_walk_fair(taker, next, keys, i + 1, expired, ledger);
                    lemma_fair_trans(
                        ledger,
                        taker,
                        self.events,
                        after.events,
                        self.walk(taker, tally, keys, i, expired)->Ok_0.ledger.events,
                    );
                }
            }
        }
    }

    /// Every trade that an order makes is with an order of someone else that had not expired, at
    /// the price of that order, which is within the limit, and for no more than that order had.
    pub proof fn law_trades_are_fair(self, taker: Taker, to_fill: u64)
        requires
            self.side(taker.side.spec_opposite()).dom().finite(),
        ensures
            self.matched(taker, to_fill) matches Ok(walked) ==> all_fair(
                self,
                taker,
                self.events,
                walked.ledger.events,
            ),
    {
        reveal(Ledger::matched);
        let maker = taker.side.spec_opposite();
        if self.matched(taker, to_fill) is Ok {
            Self::lemma_best_first(maker, self.side(maker));
            self.lemma_walk_fair(
                taker,
                Tally { to_fill, filled: 0, paid: 0, fee: 0 },
                crate::ledger::best_first(maker, self.side(maker)),
                0,
                Seq::empty(),
                self,
            );
        }
    }

    /// Whether the orders of the taker and the expired ones are as they were.
    pub open spec fn spares(self, taker: Taker, other: Ledger) -> bool {
        forall|key: u128| #[trigger]
            self.side(taker.side.spec_opposite()).contains_key(key) && (crate::ledger::is_expired(
                self.side(taker.side.spec_opposite())[key].value,
                taker.now,
            ) || self.side(taker.side.spec_opposite())[key].owner == taker.user) ==> other.side(
                taker.side.spec_opposite(),
            ).contains_key(key) && other.side(taker.side.spec_opposite())[key] == self.side(
                taker.side.spec_opposite(),
            )[key]
    }

    proof fn lemma_walk_spares(self, taker: Taker, tally: Tally, keys: Seq<u128>, i: int, expired: Seq<u128>)
        requires
            self.walk(taker, tally, keys, i, expired) is Ok,
            0 <= i,
            keys.no_duplicates(),
            forall|j: int|
                i <= j < keys.len() ==> self.side(taker.side.spec_opposite()).contains_key(
                    #[trigger] keys[j],
                ),
        ensures
            self.spares(taker, self.walk(taker, tally, keys, i, expired)->Ok_0.ledger),
        decreases keys.len() - i,
    {
        let maker = taker.side.spec_opposite();
        if i < keys.len() {
            let key = keys[i];
            let kept = self.side(maker)[key];
            if crate::ledger::is_expired(kept.value, taker.now) {
                self.lemma_walk_spares(taker, tally, keys, i + 1, expired.push(key));
            } else if kept.owner == taker.user {
                self.lemma_walk_spares(taker, tally, keys, i + 1, expired);
            } else if crate::ledger::within_limit(
                taker.side,
                taker.limit,
                crate::order_book::key_price(key),
            ) {
                let fill = taker.fill(tally, key, kept)->Ok_0;
                let next = taker.tallied(tally, fill)->Ok_0;
                let after = if taker.preview {
                    self
                } else {
                    self.filled(taker, fill)->Ok_0
                };
                assert(fill.key == key);
                if !taker.preview {
                    self.lemma_filled_within(taker, fill);
                }
                assert(self.spares(taker, after));
                if !fill.last {
                    assert forall|j: int| i + 1 <= j < keys.len() implies after.side(maker).contains_key(
                        #[trigger] keys[j],
                    ) by {
                        assert(keys[j] != key);
                    }
                    after.lemma_walk_spares(taker, next, keys, i + 1, expired);
                    let end = self.walk(taker, tally, keys, i, expired)->Ok_0.ledger;
                    assert forall|k: u128| #[trigger]
                        self.side(maker).contains_key(k) && (crate::ledger::is_expired(
                            self.side(maker)[k].value,
                            taker.now,
                        ) || self.side(maker)[k].owner == taker.user) implies end.side(
                        maker,
                    ).contains_key(k) && end.side(maker)[k] == self.side(maker)[k] by {
                        assert(after.side(maker).contains_key(k));
                    }
                }
            }
        }
    }

    /// Matching leaves expired orders and the taker's own orders as they are.
    pub proof fn law_matching_spares(self, taker: Taker, to_fill: u64)
        requires
            self.side(taker.side.spec_opposite()).dom().finite(),
        ensures
            self.matched(taker, to_fill) matches Ok(walked) ==> self.spares(taker, walked.ledger),
    {
        reveal(Ledger::matched);
        let maker = taker.side.spec_opposite();
        if self.matched(taker, to_fill) is Ok {
            Self::lemma_best_first(maker, self.side(maker));
            self.lemma_walk_spares(
                taker,
                Tally { to_fill, filled: 0, paid: 0, fee: 0 },
                crate::ledger::best_first(maker, self.side(maker)),
                0,
                Seq::empty(),
            );
        }
    }
}

} // verus!
