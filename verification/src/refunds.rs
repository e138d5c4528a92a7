//! What becomes of orders that leave the book without a trade: their owners get back what the
//! orders hold.
use crate::ledger::{Ledger, Taker, Tally};
use crate::market::{Event, ExpireEvent, MarketState, Side};
use crate::pubkey::Pubkey;
use crate::records::Order;
use crate::settlement::LogView;
use crate::shelf::Kept;
use vstd::prelude::*;

verus! {

/// What a posted order holds: an ask the tokens it offers, a bid what its tokens cost at its price,
/// which is the upper half of its key, per `factor` tokens.
pub open spec fn value_of(side: Side, key: u128, order: Order, factor: int) -> int {
    match side {
        Side::Bid => (order.amount as int * ((key >> 64) as u64) as int) / factor,
        Side::Ask => order.amount as int,
    }
}

/// The expired orders among events.
pub open spec fn expiries_in(events: Seq<Event>) -> Seq<ExpireEvent>
    decreases events.len(),
{
    if events.len() == 0 {
        Seq::empty()
    } else {
        match events.last() {
            Event::Expire(expiry) => expiries_in(events.drop_last()).push(expiry),
            _ => expiries_in(events.drop_last()),
        }
    }
}

/// The expired orders that are reported in `after` and not yet in `before`.
pub open spec fn expiries_since(before: Seq<Event>, after: Seq<Event>) -> Seq<ExpireEvent> {
    expiries_in(after.skip(before.len() as int))
}

/// The tokens of expired orders.
pub open spec fn tokens_back(expiries: Seq<ExpireEvent>) -> int
    decreases expiries.len(),
{
    if expiries.len() == 0 {
        0
    } else {
        tokens_back(expiries.drop_last()) + expiries.last().tokens
    }
}

/// The tokens of expired orders that go back to an account.
pub open spec fn back_to(expiries: Seq<ExpireEvent>, id: u128) -> int
    decreases expiries.len(),
{
    if expiries.len() == 0 {
        0
    } else {
        back_to(expiries.drop_last(), id) + if crate::trades::account_of(expiries.last().owner) == id {
            expiries.last().tokens as int
        } else {
            0
        }
    }
}

/// Whether tokens of orders have moved to the logs and some orders have left a side, and nothing
/// else has changed in the state.
pub open spec fn gives_back(state: MarketState, after: MarketState, side: Side, orders: int, tokens: int) -> bool {
    &&& side == Side::Bid ==> {
        &&& after.prc_order_balance == state.prc_order_balance - tokens
        &&& after.prc_log_balance == state.prc_log_balance + tokens
        &&& after.mkt_order_balance == state.mkt_order_balance
        &&& after.mkt_log_balance == state.mkt_log_balance
        &&& after.active_bid == state.active_bid - orders
        &&& after.active_ask == state.active_ask
    }
    &&& side == Side::Ask ==> {
        &&& after.mkt_order_balance == state.mkt_order_balance - tokens
        &&& after.mkt_log_balance == state.mkt_log_balance + tokens
        &&& after.prc_order_balance == state.prc_order_balance
        &&& after.prc_log_balance == state.prc_log_balance
        &&& after.active_ask == state.active_ask - orders
        &&& after.active_bid == state.active_bid
    }
    &&& state.log_rollover ==> after.log_rollover
    &&& after.settle_a == state.settle_a
    &&& after.settle_b == state.settle_b
    &&& after.log_deposit_balance == state.log_deposit_balance
    &&& after.action_counter == state.action_counter
    &&& after.trade_counter == state.trade_counter
    &&& after.order_counter == state.order_counter
    &&& after.mkt_vault_balance == state.mkt_vault_balance
    &&& after.prc_vault_balance == state.prc_vault_balance
    &&& after.mkt_user_vault_balance == state.mkt_user_vault_balance
    &&& after.prc_user_vault_balance == state.prc_user_vault_balance
    &&& after.prc_fees_balance == state.prc_fees_balance
    &&& after.last_price == state.last_price
    &&& after.last_ts == state.last_ts
}

/// Whether an event says that `owner` has got tokens in one of two logs.
pub open spec fn is_paid(
    event: Event,
    action: u64,
    market: Pubkey,
    owner: Pubkey,
    log_a: LogView,
    log_b: LogView,
    mkt_token: bool,
    tokens: int,
) -> bool {
    &&& event is Settle
    &&& event->Settle_0.event_type == 33111472894808803319726137140961827977
    &&& event->Settle_0.action_id == action
    &&& event->Settle_0.market == market
    &&& event->Settle_0.owner == owner
    &&& event->Settle_0.settlement_log == log_a.key || event->Settle_0.settlement_log == log_b.key
    &&& event->Settle_0.market_tokens == if mkt_token {
        tokens
    } else {
        0
    }
    &&& event->Settle_0.pricing_tokens == if mkt_token {
        0
    } else {
        tokens
    }
}

impl Ledger {
    /// Whether an order of a side is back with its owner in `after`, and nothing else has changed
    /// but for the events, of which one more says so.
    pub open spec fn hands_back(self, after: Ledger, market: Pubkey, side: Side, key: u128, factor: int) -> bool {
        let kept = self.along(side)[key];
        let tokens = value_of(side, key, kept.value, factor);
        &&& after.along(side) == self.along(side).remove(key)
        &&& after.across(side) == self.across(side)
        &&& after.trades == self.trades
        &&& after.orders_key == self.orders_key
        &&& after.trade_log_key == self.trade_log_key
        &&& after.bid_slots == self.bid_slots
        &&& after.ask_slots == self.ask_slots
        &&& crate::trades::only_gains(
            self.log_a,
            self.log_b,
            after.log_a,
            after.log_b,
            crate::trades::account_of(kept.owner),
            side == Side::Ask,
            tokens,
        )
        &&& gives_back(self.state, after.state, side, 1, tokens)
        &&& after.events.len() > 0
        &&& after.events.drop_last() == self.events
        &&& is_paid(
            after.events.last(),
            self.state.action_counter,
            market,
            kept.owner,
            self.log_a,
            self.log_b,
            side == Side::Ask,
            tokens,
        )
    }

    #[verifier::rlimit(40)]
    proof fn lemma_hands_back(self, market: Pubkey, side: Side, key: u128, factor: u64, tokens: u64, now: i64)
        requires
            self.has_logs(),
            Ledger::held_by(side, key, self.side(side)[key].value, factor) matches Ok(t) && t == tokens,
            self.returned(market, side, key, tokens, now) is Ok,
        ensures
            self.hands_back(
                self.returned(market, side, key, tokens, now)->Ok_0,
                market,
                side,
                key,
                factor as int,
            ),
            self.returned(market, side, key, tokens, now)->Ok_0.has_logs(),
    {
        let after = self.returned(market, side, key, tokens, now)->Ok_0;
        let owner = self.side(side)[key].owner;
        self.settling().law_settlement(market, owner, side == Side::Ask, tokens, now);
        assert(after.events == self.events.push(after.events.last()));
        assert(after.events.drop_last() =~= self.events);
        assert(self.side(side) == self.along(side));
        assert(after.side(side) == after.along(side));
    }
}

impl Ledger {
    /// Whether an expired order is reported as it was: on its side, past its time, with its owner
    /// and what it held.
    pub open spec fn had_expired(self, market: Pubkey, side: Side, factor: int, now: i64, expiry: ExpireEvent) -> bool {
        let kept = self.along(side)[expiry.order_id];
        &&& self.along(side).contains_key(expiry.order_id)
        &&& kept.value.expiry != 0 && kept.value.expiry <= now
        &&& expiry.event_type == 16332991664789055110548783525139174482
        &&& expiry.owner == kept.owner
        &&& expiry.quantity == kept.value.amount
        &&& expiry.price == (expiry.order_id >> 64) as u64
        &&& expiry.tokens == value_of(side, expiry.order_id, kept.value, factor)
        &&& expiry.order_side == match side {
            Side::Bid => 0u8,
            Side::Ask => 1u8,
        }
        &&& expiry.market == market
        &&& expiry.action_id == self.state.action_counter
    }

    /// Whether the expired orders that `after` reports have left their side and gone back to their
    /// owners, and nothing else has changed.
    pub open spec fn has_swept(self, after: Ledger, market: Pubkey, side: Side, factor: int, now: i64) -> bool {
        let gone = expiries_since(self.events, after.events);
        let start = self.events.len();
        &&& forall|k: int|
            0 <= k < gone.len() ==> self.had_expired(market, side, factor, now, #[trigger] gone[k])
        &&& forall|j: int, k: int|
            0 <= j < k < gone.len() ==> (#[trigger] gone[j]).order_id != (#[trigger] gone[k]).order_id
        &&& after.across(side) == self.across(side)
        &&& forall|key: u128| #[trigger]
            after.along(side).contains_key(key) <==> self.along(side).contains_key(key) && forall|k: int|
                0 <= k < gone.len() ==> (#[trigger] gone[k]).order_id != key
        &&& forall|key: u128|
            after.along(side).contains_key(key) ==> #[trigger] after.along(side)[key] == self.along(
                side,
            )[key]
        &&& forall|id: u128, mkt_token: bool| #[trigger]
            crate::trades::held_in(after.log_a, after.log_b, id, mkt_token) == crate::trades::held_in(
                self.log_a,
                self.log_b,
                id,
                mkt_token,
            ) + if mkt_token == (side == Side::Ask) {
                back_to(gone, id)
            } else {
                0
            }
        &&& crate::trades::same_log(self.log_a, after.log_a)
        &&& crate::trades::same_log(self.log_b, after.log_b)
        &&& gives_back(self.state, after.state, side, gone.len() as int, tokens_back(gone))
        &&& after.trades == self.trades
        &&& after.orders_key == self.orders_key
        &&& after.trade_log_key == self.trade_log_key
        &&& after.bid_slots == self.bid_slots
        &&& after.ask_slots == self.ask_slots
        &&& after.events.len() == start + 2 * gone.len()
        &&& forall|k: int| 0 <= k < start ==> #[trigger] after.events[k] == self.events[k]
        &&& forall|k: int|
            0 <= k < gone.len() ==> self.tells_expiry(
                after.events[start + 2 * k],
                after.events[start + 2 * k + 1],
                market,
                side,
                #[trigger] gone[k],
            )
    }

    /// Whether two events are those of an expired order and of what its owner gets.
    pub open spec fn tells_expiry(self, first: Event, second: Event, market: Pubkey, side: Side, expiry: ExpireEvent) -> bool {
        &&& first == Event::Expire(expiry)
        &&& is_paid(
            second,
            expiry.action_id,
            market,
            expiry.owner,
            self.log_a,
            self.log_b,
            side == Side::Ask,
            expiry.tokens as int,
        )
    }
}

proof fn lemma_expiries_push(before: Seq<Event>, events: Seq<Event>, expiry: ExpireEvent, settled: Event)
    requires
        before.len() <= events.len(),
        settled is Settle,
    ensures
        expiries_since(before, events.push(Event::Expire(expiry)).push(settled)) == expiries_since(
            before,
            events,
        ).push(expiry),
        crate::trades::trades_since(before, events.push(Event::Expire(expiry)).push(settled)) == crate::trades::trades_since(
            before,
            events,
        ),
{
    let n = before.len() as int;
    let one = events.push(Event::Expire(expiry));
    let two = one.push(settled);
    assert(two.skip(n).drop_last() =~= one.skip(n));
    assert(one.skip(n).drop_last() =~= events.skip(n));
    assert(two.skip(n).last() == settled);
    assert(one.skip(n).last() == Event::Expire(expiry));
    assert(expiries_in(two.skip(n)) == expiries_in(one.skip(n)));
    assert(expiries_in(one.skip(n)) == expiries_in(events.skip(n)).push(expiry));
    assert(crate::trades::trades_in(two.skip(n)) == crate::trades::trades_in(one.skip(n)));
    assert(crate::trades::trades_in(one.skip(n)) == crate::trades::trades_in(events.skip(n)));
}

proof fn lemma_back_push(gone: Seq<ExpireEvent>, expiry: ExpireEvent)
    ensures
        tokens_back(gone.push(expiry)) == tokens_back(gone) + expiry.tokens,
        forall|id: u128| #[trigger]
            back_to(gone.push(expiry), id) == back_to(gone, id) + if crate::trades::account_of(expiry.owner) == id {
                expiry.tokens as int
            } else {
                0
            },
{
    assert(gone.push(expiry).drop_last() =~= gone);
    assert(gone.push(expiry).last() == expiry);
}

impl Ledger {
    #[verifier::rlimit(80)]
    proof fn lemma_swept_push(self, now: Ledger, market: Pubkey, side: Side, key: u128, factor: u64, ts: i64)
        requires
            self.has_logs(),
            now.has_logs(),
            self.has_swept(now, market, side, factor as int, ts),
            now.expired_one(market, side, key, factor, ts) is Ok,
            self.along(side).contains_key(key),
            now.along(side).contains_key(key),
            crate::ledger::is_expired(self.along(side)[key].value, ts),
        ensures
            self.has_swept(
                now.expired_one(market, side, key, factor, ts)->Ok_0,
                market,
                side,
                factor as int,
                ts,
            ),
            now.expired_one(market, side, key, factor, ts)->Ok_0.has_logs(),
            ({
                let gone = expiries_since(self.events, now.events);
                let more = expiries_since(
                    self.events,
                    now.expired_one(market, side, key, factor, ts)->Ok_0.events,
                );
                more.len() == gone.len() + 1 && more.drop_last() == gone && more.last().order_id == key
            }),
            now.expired_one(market, side, key, factor, ts)->Ok_0.along(side) == now.along(side).remove(key),
            crate::trades::trades_since(
                self.events,
                now.expired_one(market, side, key, factor, ts)->Ok_0.events,
            ) == crate::trades::trades_since(self.events, now.events),
    {
        let after = now.expired_one(market, side, key, factor, ts)->Ok_0;
        let kept = now.along(side)[key];
        assert(now.side(side) == now.along(side));
        let tokens = Ledger::held_by(side, key, kept.value, factor)->Ok_0;
        let expiry = ExpireEvent {
            event_type: crate::ledger::EXPIRE_EVENT,
            action_id: now.state.action_counter,
            market,
            owner: kept.owner,
            order_side: side.spec_code(),
            order_id: key,
            price: crate::order_book::key_price(key),
            quantity: kept.value.amount,
            tokens,
        };
        let told = now.reporting(Event::Expire(expiry));
        told.lemma_hands_back(market, side, key, factor, tokens, ts);
        let gone = expiries_since(self.events, now.events);
        let more = gone.push(expiry);
        let n = gone.len() as int;
        let start = self.events.len();
        assert(after.events == now.events.push(Event::Expire(expiry)).push(after.events.last())) by {
            assert(told.events == now.events.push(Event::Expire(expiry)));
            assert(after.events.drop_last().push(after.events.last()) =~= after.events);
        }
        lemma_expiries_push(self.events, now.events, expiry, after.events.last());
        lemma_back_push(gone, expiry);
        assert(more[n] == expiry);
        assert(more.drop_last() =~= gone);
        assert(now.along(side)[key] == self.along(side)[key]);
        assert forall|k: int| 0 <= k < more.len() implies self.had_expired(
            market,
            side,
            factor as int,
            ts,
            #[trigger] more[k],
        ) by {
            if k < n {
                assert(more[k] == gone[k]);
            }
        }
        assert forall|j: int, k: int| 0 <= j < k < more.len() implies (#[trigger] more[j]).order_id != (
        #[trigger] more[k]).order_id by {
            assert(more[j] == gone[j]);
            if k < n {
                assert(more[k] == gone[k]);
            }
        }
        assert forall|k: u128| #[trigger]
            after.along(side).contains_key(k) <==> self.along(side).contains_key(k) && forall|j: int|
                0 <= j < more.len() ==> (#[trigger] more[j]).order_id != k by {
            if self.along(side).contains_key(k) && forall|j: int|
                0 <= j < more.len() ==> (#[trigger] more[j]).order_id != k {
                assert forall|j: int| 0 <= j < gone.len() implies (#[trigger] gone[j]).order_id != k by {
                    assert(more[j] == gone[j]);
                }
                assert(now.along(side).contains_key(k));
                assert(k != key);
            }
            if after.along(side).contains_key(k) {
                assert(now.along(side).contains_key(k));
                assert forall|j: int| 0 <= j < more.len() implies (#[trigger] more[j]).order_id != k by {
                    if j < n {
                        assert(more[j] == gone[j]);
                    }
                }
            }
        }
        assert forall|k: u128| after.along(side).contains_key(k) implies #[trigger] after.along(side)[k]
            == self.along(side)[k] by {
            assert(now.along(side).contains_key(k));
            assert(now.along(side)[k] == self.along(side)[k]);
        }
        assert forall|id: u128, m: bool| #[trigger]
            crate::trades::held_in(after.log_a, after.log_b, id, m) == crate::trades::held_in(self.log_a, self.log_b, id, m) + if m
                == (side == Side::Ask) {
                back_to(more, id)
            } else {
                0
            } by {
            assert(crate::trades::held_in(now.log_a, now.log_b, id, m) == crate::trades::held_in(self.log_a, self.log_b, id, m)
                + if m == (side == Side::Ask) {
                back_to(gone, id)
            } else {
                0
            });
        }
        assert forall|k: int| 0 <= k < more.len() implies self.tells_expiry(
            after.events[start + 2 * k],
            after.events[start + 2 * k + 1],
            market,
            side,
            #[trigger] more[k],
        ) by {
            if k < n {
                assert(more[k] == gone[k]);
                assert(after.events[start + 2 * k] == now.events[start + 2 * k]);
                assert(after.events[start + 2 * k + 1] == now.events[start + 2 * k + 1]);
            } else {
                assert(start + 2 * k == now.events.len());
            }
        }
        assert forall|k: int| 0 <= k < start implies #[trigger] after.events[k] == self.events[k] by {
            assert(now.events[k] == self.events[k]);
        }
    }
}

impl Ledger {
    /// Whether a key is that of an order that has expired.
    pub open spec fn is_late(self, side: Side, key: u128, now: i64) -> bool {
        &&& self.along(side).contains_key(key)
        &&& self.along(side)[key].value.expiry != 0
        &&& self.along(side)[key].value.expiry <= now
    }

    #[verifier::rlimit(60)]
    proof fn lemma_swept(self, now: Ledger, taker: Taker, expired: Seq<u128>, count: nat)
        requires
            self.has_logs(),
            now.has_logs(),
            count <= 10,
            now.swept(taker, expired, count) is Ok,
            self.has_swept(now, taker.market, taker.side.spec_opposite(), taker.factor as int, taker.now),
            expiries_since(self.events, now.events).len() == count,
            crate::trades::trades_since(self.events, now.events).len() == 0,
            expired.no_duplicates(),
            forall|k: int|
                0 <= k < expired.len() ==> self.is_late(
                    taker.side.spec_opposite(),
                    #[trigger] expired[k],
                    taker.now,
                ) && now.along(taker.side.spec_opposite()).contains_key(expired[k]),
        ensures
            ({
                let after = now.swept(taker, expired, count)->Ok_0;
                &&& self.has_swept(
                    after,
                    taker.market,
                    taker.side.spec_opposite(),
                    taker.factor as int,
                    taker.now,
                )
                &&& after.has_logs()
                &&& crate::trades::trades_since(self.events, after.events).len() == 0
                &&& expiries_since(self.events, after.events).len() == if count + expired.len() < 10 {
                    (count + expired.len()) as int
                } else {
                    10
                }
                &&& forall|k: int|
                    0 <= k < count ==> #[trigger] expiries_since(self.events, after.events)[k]
                        == expiries_since(self.events, now.events)[k]
                &&& forall|k: int|
                    count <= k < expiries_since(self.events, after.events).len() ==> (
                    #[trigger] expiries_since(self.events, after.events)[k]).order_id
                        == expired[expired.len() - 1 - (k - count)]
                &&& expiries_since(self.events, after.events).len() < 10 ==> forall|k: int|
                    0 <= k < expired.len() ==> !after.along(taker.side.spec_opposite()).contains_key(
                        #[trigger] expired[k],
                    )
                &&& forall|key: u128| #[trigger]
                    after.along(taker.side.spec_opposite()).contains_key(key) ==> now.along(
                        taker.side.spec_opposite(),
                    ).contains_key(key)
            }),
        decreases expired.len(),
    {
        let side = taker.side.spec_opposite();
        if expired.len() > 0 && count < 10 {
            let key = expired.last();
            let rest = expired.drop_last();
            assert(key == expired[expired.len() - 1]);
            let after = now.expired_one(taker.market, side, key, taker.factor, taker.now)->Ok_0;
            self.lemma_swept_push(now, taker.market, side, key, taker.factor, taker.now);
            assert forall|k: int| 0 <= k < rest.len() implies self.is_late(
                side,
                #[trigger] rest[k],
                taker.now,
            ) && after.along(side).contains_key(rest[k]) by {
                assert(rest[k] == expired[k]);
            }
            self.lemma_swept(after, taker, rest, count + 1);
            let end = now.swept(taker, expired, count)->Ok_0;
            let gone = expiries_since(self.events, now.events);
            let more = expiries_since(self.events, after.events);
            let all = expiries_since(self.events, end.events);
            assert forall|k: int| 0 <= k < count implies #[trigger] all[k] == gone[k] by {
                assert(all[k] == more[k]);
                assert(more.drop_last()[k] == more[k]);
            }
            assert forall|k: int| count <= k < all.len() implies (#[trigger] all[k]).order_id
                == expired[expired.len() - 1 - (k - count)] by {
                if k == count {
                    assert(all[k] == more[k]);
                    assert(more.last() == more[k]);
                } else {
                    assert(all[k].order_id == rest[rest.len() - 1 - (k - (count + 1))]);
                }
            }
            if expiries_since(self.events, end.events).len() < 10 {
                assert forall|k: int| 0 <= k < expired.len() implies !end.along(side).contains_key(
                    #[trigger] expired[k],
                ) by {
                    if k < rest.len() {
                        assert(rest[k] == expired[k]);
                    } else if end.along(side).contains_key(key) {
                        assert(after.along(side).contains_key(key));
                    }
                }
            }
        }
    }

    /// A sweep removes expired orders, those that were met last first and no more than ten of them,
    /// and each owner gets back what the order held.
    #[verifier::rlimit(30)]
    pub proof fn law_sweep(self, taker: Taker, expired: Seq<u128>)
        requires
            self.has_logs(),
            expired.no_duplicates(),
            forall|k: int|
                0 <= k < expired.len() ==> self.is_late(
                    taker.side.spec_opposite(),
                    #[trigger] expired[k],
                    taker.now,
                ),
        ensures
            self.swept(taker, expired, 0) matches Ok(after) ==> {
                let gone = expiries_since(self.events, after.events);
                &&& self.has_swept(
                    after,
                    taker.market,
                    taker.side.spec_opposite(),
                    taker.factor as int,
                    taker.now,
                )
                &&& after.has_logs()
                &&& crate::trades::trades_since(self.events, after.events).len() == 0
                &&& gone.len() == if expired.len() < 10 {
                    expired.len() as int
                } else {
                    10
                }
                &&& forall|k: int|
                    0 <= k < gone.len() ==> (#[trigger] gone[k]).order_id == expired[expired.len() - 1 - k]
                &&& gone.len() < 10 ==> forall|k: int|
                    0 <= k < expired.len() ==> !after.along(taker.side.spec_opposite()).contains_key(
                        #[trigger] expired[k],
                    )
            },
    {
        if self.swept(taker, expired, 0) is Ok {
            assert(self.events.skip(self.events.len() as int).len() == 0);
            self.lemma_swept(self, taker, expired, 0);
        }
    }

    /// The place at which the matching of an order stops: all expired orders before it are noted,
    /// and all trades are with orders before it.
    #[verifier::rlimit(80)]
    proof fn lemma_walk_stop(
        self,
        now: Ledger,
        taker: Taker,
        tally: Tally,
        keys: Seq<u128>,
        i: int,
        expired: Seq<u128>,
    ) -> (stop: int)
        requires
            !taker.preview,
            self.has_logs(),
            now.has_logs(),
            now.walk(taker, tally, keys, i, expired) is Ok,
            0 <= i <= keys.len(),
            keys.no_duplicates(),
            forall|x: int, y: int|
                0 <= x < y < keys.len() ==> is_ahead(
                    taker.side.spec_opposite(),
                    #[trigger] keys[x],
                    #[trigger] keys[y],
                ),
            forall|x: int, y: int|
                0 <= x < y < expired.len() ==> is_ahead(
                    taker.side.spec_opposite(),
                    #[trigger] expired[x],
                    #[trigger] expired[y],
                ),
            self.events.len() <= now.events.len(),
            forall|j: int|
                i <= j < keys.len() ==> {
                    &&& self.across(taker.side).contains_key(#[trigger] keys[j])
                    &&& now.across(taker.side).contains_key(keys[j])
                    &&& now.across(taker.side)[keys[j]] == self.across(taker.side)[keys[j]]
                },
            expired.no_duplicates(),
            forall|k: int|
                0 <= k < expired.len() ==> self.is_late(
                    taker.side.spec_opposite(),
                    #[trigger] expired[k],
                    taker.now,
                ) && keys.take(i).contains(expired[k]),
            forall|k: int|
                0 <= k < crate::trades::trades_since(self.events, now.events).len() ==> keys.take(i).contains(
                    (#[trigger] crate::trades::trades_since(self.events, now.events)[k]).maker_order_id,
                ),
        ensures
            ({
                let end = now.walk(taker, tally, keys, i, expired)->Ok_0;
                &&& i <= stop <= keys.len()
                &&& end.expired.no_duplicates()
                &&& forall|x: int, y: int|
                    0 <= x < y < end.expired.len() ==> is_ahead(
                        taker.side.spec_opposite(),
                        #[trigger] end.expired[x],
                        #[trigger] end.expired[y],
                    )
                &&& forall|k: int|
                    0 <= k < end.expired.len() ==> self.is_late(
                        taker.side.spec_opposite(),
                        #[trigger] end.expired[k],
                        taker.now,
                    )
                &&& forall|j: int|
                    i <= j < stop && self.is_late(
                        taker.side.spec_opposite(),
                        #[trigger] keys[j],
                        taker.now,
                    ) ==> end.expired.contains(keys[j])
                &&& forall|k: int|
                    0 <= k < expired.len() ==> end.expired.contains(#[trigger] expired[k])
                &&& forall|k: int|
                    0 <= k < crate::trades::trades_since(self.events, end.ledger.events).len() ==> keys.take(
                        stop,
                    ).contains(
                        (#[trigger] crate::trades::trades_since(self.events, end.ledger.events)[k]).maker_order_id,
                    )
            }),
        decreases keys.len() - i,
    {
        let side = taker.side.spec_opposite();
        assert(now.side(side) == now.across(taker.side));
        assert(self.along(side) == self.across(taker.side));
        if i >= keys.len() {
            assert forall|k: int| 0 <= k < expired.len() implies expired.contains(#[trigger] expired[k]) by {}
            i
        } else {
            let key = keys[i];
            let kept = now.side(side)[key];
            let end = now.walk(taker, tally, keys, i, expired)->Ok_0;
            let short = keys.take(i);
            let long = keys.take(i + 1);
            assert(long[i] == key);
            assert(!short.contains(key)) by {
                if short.contains(key) {
                    let x = choose|x: int| 0 <= x < short.len() && short[x] == key;
                    assert(keys[x] == keys[i]);
                }
            }
            assert forall|k: u128| short.contains(k) implies long.contains(k) by {
                let x = choose|x: int| 0 <= x < short.len() && short[x] == k;
                assert(long[x] == k);
            }
            assert forall|k: int| 0 <= k < expired.len() implies expired.contains(#[trigger] expired[k]) by {}
            if crate::ledger::is_expired(kept.value, taker.now) {
                let more = expired.push(key);
                assert forall|k: int| 0 <= k < more.len() implies self.is_late(
                    side,
                    #[trigger] more[k],
                    taker.now,
                ) && long.contains(more[k]) by {
                    if k < expired.len() {
                        assert(more[k] == expired[k]);
                    }
                }
                assert(more.no_duplicates()) by {
                    assert forall|a: int, b: int|
                        0 <= a < more.len() && 0 <= b < more.len() && a != b implies more[a] != more[b] by {
                        if a < expired.len() {
                            assert(more[a] == expired[a]);
                            assert(short.contains(expired[a]));
                        }
                        if b < expired.len() {
                            assert(more[b] == expired[b]);
                            assert(short.contains(expired[b]));
                        }
                    }
                }
                assert forall|x: int, y: int| 0 <= x < y < more.len() implies is_ahead(
                    side,
                    #[trigger] more[x],
                    #[trigger] more[y],
                ) by {
                    assert(more[x] == expired[x]);
                    if y < expired.len() {
                        assert(more[y] == expired[y]);
                    } else {
                        assert(short.contains(expired[x]));
                        let z = choose|z: int| 0 <= z < short.len() && short[z] == expired[x];
                        assert(keys[z] == expired[x]);
                        assert(is_ahead(side, keys[z], keys[i]));
                    }
                }
                let stop = self.lemma_walk_stop(now, taker, tally, keys, i + 1, more);
                assert forall|k: int| 0 <= k < expired.len() implies end.expired.contains(
                    #[trigger] expired[k],
                ) by {
                    assert(more[k] == expired[k]);
                }
                assert(more[expired.len() as int] == key);
                stop
            } else if kept.owner == taker.user {
                self.lemma_walk_stop(now, taker, tally, keys, i + 1, expired)
            } else if !crate::ledger::within_limit(
                taker.side,
                taker.limit,
                crate::order_book::key_price(key),
            ) {
                i
            } else {
                let fill = taker.fill(tally, key, kept)->Ok_0;
                let next = taker.tallied(tally, fill)->Ok_0;
                let after = now.filled(taker, fill)->Ok_0;
                now.lemma_filled_trades(taker, fill, self.events);
                now.lemma_filled_within(taker, fill);
                let trades = crate::trades::trades_since(self.events, now.events);
                let more = crate::trades::trades_since(self.events, after.events);
                assert forall|k: int| 0 <= k < more.len() implies long.contains(
                    (#[trigger] more[k]).maker_order_id,
                ) by {
                    if k < trades.len() {
                        assert(more[k] == trades[k]);
                    }
                }
                assert(after.side(side) == after.across(taker.side));
                assert forall|j: int| i + 1 <= j < keys.len() implies {
                    &&& self.across(taker.side).contains_key(#[trigger] keys[j])
                    &&& after.across(taker.side).contains_key(keys[j])
                    &&& after.across(taker.side)[keys[j]] == self.across(taker.side)[keys[j]]
                } by {
                    assert(keys[i] != keys[j]);
                }
                if fill.last {
                    i + 1
                } else {
                    self.lemma_walk_stop(after, taker, next, keys, i + 1, expired)
                }
            }
        }
    }
}

/// Whether a key is that of the order with a price and a number: the price is its upper half, and
/// the number its lower half for an ask, counted down from the top for a bid.
pub open spec fn is_key_of(key: u128, side: Side, price: u64, number: u64) -> bool {
    key == price * 0x10000000000000000 + match side {
        Side::Bid => u64::MAX - number,
        Side::Ask => number as int,
    }
}

pub proof fn lemma_is_key_of(side: Side, price: u64, number: u64)
    ensures
        is_key_of(crate::order_book::order_key(side, price, number), side, price, number),
{
    let high: u128 = price as u128;
    let low: u128 = number as u128;
    let down: u64 = !number;
    assert(((high << 64u128) | low) == high * 0x10000000000000000u128 + low) by (bit_vector)
        requires
            high <= 0xffffffffffffffff,
            low <= 0xffffffffffffffff,
    ;
    let inverse: u128 = down as u128;
    assert(((high << 64u128) | inverse) == high * 0x10000000000000000u128 + inverse) by (bit_vector)
        requires
            high <= 0xffffffffffffffff,
            inverse <= 0xffffffffffffffff,
    ;
    assert(!number == 0xffffffffffffffffu64 - number) by (bit_vector);
}

/// Whether one order more is counted on a side, with the next number, and nothing else has changed
/// in the state.
pub open spec fn counts_one(state: MarketState, after: MarketState, side: Side) -> bool {
    &&& after == (MarketState {
        order_counter: after.order_counter,
        active_bid: after.active_bid,
        active_ask: after.active_ask,
        ..state
    })
    &&& after.order_counter == state.order_counter + 1
    &&& after.active_bid == state.active_bid + match side {
        Side::Bid => 1int,
        Side::Ask => 0,
    }
    &&& after.active_ask == state.active_ask + match side {
        Side::Bid => 0int,
        Side::Ask => 1,
    }
}

/// Whether an order is matched after all others of its side: no bid has a lower key, and no ask a
/// higher one.
pub open spec fn comes_last(side: Side, orders: Map<u128, Kept<Order>>, last: u128) -> bool {
    &&& orders.contains_key(last)
    &&& forall|key: u128| #[trigger]
        orders.contains_key(key) ==> match side {
            Side::Bid => last <= key,
            Side::Ask => last >= key,
        }
}

impl Ledger {
    /// An order that is posted on a side with room for it is there afterwards, under a key of its
    /// price and the next number, and nothing else changes.
    #[verifier::rlimit(30)]
    pub proof fn law_post(self, taker: Taker, price: u64, order: Order)
        requires
            self.numbered(),
            self.state.order_counter < u64::MAX,
            2 * self.along(taker.side).len() + 1 <= match taker.side {
                Side::Bid => self.bid_slots,
                Side::Ask => self.ask_slots,
            },
        ensures
            self.posted(taker, price, order) matches Ok(after) ==> exists|key: u128|
                {
                    &&& #[trigger] is_key_of(key, taker.side, price, self.state.order_counter)
                    &&& !self.along(taker.side).contains_key(key)
                    &&& after.along(taker.side) == self.along(taker.side).insert(
                        key,
                        Kept { owner: taker.user, value: order },
                    )
                    &&& after.across(taker.side) == self.across(taker.side)
                    &&& counts_one(self.state, after.state, taker.side)
                    &&& after == (Ledger {
                        bids: after.bids,
                        asks: after.asks,
                        state: after.state,
                        ..self
                    })
                },
            self.posted(taker, price, order) is Err ==> match taker.side {
                Side::Bid => self.state.active_bid == u64::MAX,
                Side::Ask => self.state.active_ask == u64::MAX,
            },
    {
        reveal(Ledger::posted);
        let number = self.state.order_counter;
        let key = crate::order_book::order_key(taker.side, price, number);
        lemma_is_key_of(taker.side, price, number);
        crate::ledger::lemma_order_key(taker.side, price, number);
        assert(self.side(taker.side) == self.along(taker.side));
        assert(!self.along(taker.side).contains_key(key)) by {
            if self.side(taker.side).contains_key(key) {
                assert(crate::ledger::key_number(taker.side, key) < number);
            }
        }
        if self.posted(taker, price, order) is Ok {
            let after = self.posted(taker, price, order)->Ok_0;
            assert(after == (Ledger { bids: after.bids, asks: after.asks, state: after.state, ..self }));
            assert(is_key_of(key, taker.side, price, number));
        }
    }

    /// On a full side an order is posted in the place of the last one there, which must have a worse
    /// price, and whose owner gets back what it holds; else it is refused.
    #[verifier::rlimit(60)]
    pub proof fn law_post_on_full_side(self, taker: Taker, price: u64, order: Order, last: u128)
        requires
            self.numbered(),
            self.has_logs(),
            self.along(taker.side).dom().finite(),
            self.state.order_counter < u64::MAX,
            2 * self.along(taker.side).len() + 1 > match taker.side {
                Side::Bid => self.bid_slots,
                Side::Ask => self.ask_slots,
            },
            comes_last(taker.side, self.along(taker.side), last),
        ensures
            !match taker.side {
                Side::Bid => price > (last >> 64) as u64,
                Side::Ask => price < (last >> 64) as u64,
            } ==> self.posted(taker, price, order) == Err::<Ledger, crate::market::ErrorCode>(
                crate::market::ErrorCode::OrderbookFull,
            ),
            self.posted(taker, price, order) matches Ok(after) ==> exists|key: u128, freed: Ledger|
                {
                    &&& #[trigger] is_key_of(key, taker.side, price, self.state.order_counter)
                    &&& !self.along(taker.side).contains_key(key)
                    &&& #[trigger] self.hands_back(
                        freed,
                        taker.market,
                        taker.side,
                        last,
                        taker.factor as int,
                    )
                    &&& after.along(taker.side) == freed.along(taker.side).insert(
                        key,
                        Kept { owner: taker.user, value: order },
                    )
                    &&& after.across(taker.side) == freed.across(taker.side)
                    &&& counts_one(freed.state, after.state, taker.side)
                    &&& after == (Ledger {
                        bids: after.bids,
                        asks: after.asks,
                        state: after.state,
                        ..freed
                    })
                    &&& after.has_logs()
                },
    {
        reveal(Ledger::posted);
        let side = taker.side;
        let number = self.state.order_counter;
        let key = crate::order_book::order_key(side, price, number);
        lemma_is_key_of(side, price, number);
        crate::ledger::lemma_order_key(side, price, number);
        assert(self.side(side) == self.along(side));
        assert(!self.along(side).contains_key(key)) by {
            if self.side(side).contains_key(key) {
                assert(crate::ledger::key_number(side, key) < number);
            }
        }
        let numbered = self.with_state(MarketState { order_counter: (number + 1) as u64, ..self.state });
        assert(numbered.side(side) == self.along(side));
        assert(numbered.worst(side) == last) by {
            let keys = crate::ledger::best_first(side, self.along(side));
            Ledger::lemma_best_first(side, self.along(side));
            assert(keys.contains(last));
            let x = choose|x: int| 0 <= x < keys.len() && keys[x] == last;
            let y = keys.len() - 1;
            assert(self.along(side).contains_key(keys[y]));
            if x < y {
                assert(keys[x] == last);
                match side {
                    Side::Bid => {
                        assert(keys[x] > keys[y]);
                    },
                    Side::Ask => {
                        assert(keys[x] < keys[y]);
                    },
                }
            }
        }
        if self.posted(taker, price, order) is Ok {
            let after = self.posted(taker, price, order)->Ok_0;
            let tokens = Ledger::held_by(side, last, self.along(side)[last].value, taker.factor)->Ok_0;
            let given = numbered.returned(taker.market, side, last, tokens, taker.now)->Ok_0;
            numbered.lemma_hands_back(taker.market, side, last, taker.factor, tokens, taker.now);
            let freed = given.with_state(MarketState { order_counter: number, ..given.state });
            assert(self.hands_back(freed, taker.market, side, last, taker.factor as int));
            assert(after == (Ledger { bids: after.bids, asks: after.asks, state: after.state, ..freed }));
            assert(is_key_of(key, side, price, number));
        }
    }
}

/// Whether an order is matched before another: a bid with the higher key, an ask with the lower one.
pub open spec fn is_ahead(side: Side, key: u128, other: u128) -> bool {
    match side {
        Side::Bid => key > other,
        Side::Ask => key < other,
    }
}

impl Ledger {
    /// Expired orders that are met in the matching are noted in the order of the book, among them all
    /// that are ahead of an order that is traded with; no others are.
    #[verifier::rlimit(60)]
    pub proof fn law_expired_orders_are_noted(self, taker: Taker, to_fill: u64)
        requires
            self.has_logs(),
            self.across(taker.side).dom().finite(),
            !taker.preview,
        ensures
            self.matched(taker, to_fill) matches Ok(walked) ==> {
                let side = taker.side.spec_opposite();
                let trades = crate::trades::trades_since(self.events, walked.ledger.events);
                &&& walked.expired.no_duplicates()
                &&& forall|x: int, y: int|
                    0 <= x < y < walked.expired.len() ==> is_ahead(
                        side,
                        #[trigger] walked.expired[x],
                        #[trigger] walked.expired[y],
                    )
                &&& forall|k: int|
                    0 <= k < walked.expired.len() ==> self.is_late(
                        side,
                        #[trigger] walked.expired[k],
                        taker.now,
                    )
                &&& forall|key: u128, k: int|
                    0 <= k < trades.len() && #[trigger] self.is_late(side, key, taker.now) && is_ahead(
                        side,
                        key,
                        (#[trigger] trades[k]).maker_order_id,
                    ) ==> walked.expired.contains(key)
            },
    {
        reveal(Ledger::matched);
        let side = taker.side.spec_opposite();
        if self.matched(taker, to_fill) is Ok {
            let walked = self.matched(taker, to_fill)->Ok_0;
            let keys = crate::ledger::best_first(side, self.side(side));
            Self::lemma_best_first(side, self.side(side));
            assert(self.side(side) == self.across(taker.side));
            assert(self.along(side) == self.across(taker.side));
            assert(self.events.skip(self.events.len() as int).len() == 0);
            assert forall|x: int, y: int| 0 <= x < y < keys.len() implies is_ahead(
                side,
                #[trigger] keys[x],
                #[trigger] keys[y],
            ) by {}
            let stop = self.lemma_walk_stop(
                self,
                taker,
                Tally { to_fill, filled: 0, paid: 0, fee: 0 },
                keys,
                0,
                Seq::empty(),
            );
            let trades = crate::trades::trades_since(self.events, walked.ledger.events);
            assert forall|key: u128, k: int|
                0 <= k < trades.len() && #[trigger] self.is_late(side, key, taker.now) && is_ahead(
                    side,
                    key,
                    (#[trigger] trades[k]).maker_order_id,
                ) implies walked.expired.contains(key) by {
                let other = trades[k].maker_order_id;
                assert(keys.take(stop).contains(other));
                let y = choose|y: int| 0 <= y < keys.take(stop).len() && keys.take(stop)[y] == other;
                assert(keys[y] == other);
                assert(keys.contains(key));
                let x = choose|x: int| 0 <= x < keys.len() && keys[x] == key;
                assert(x < y) by {
                    if y < x {
                        match side {
                            Side::Bid => {
                                assert(keys[y] > keys[x]);
                            },
                            Side::Ask => {
                                assert(keys[y] < keys[x]);
                            },
                        }
                    }
                }
                assert(self.is_late(side, keys[x], taker.now));
            }
        }
    }

    /// What is matched and then swept.
    #[verifier::rlimit(60)]
    pub proof fn lemma_match_and_sweep(self, taker: Taker, to_fill: u64)
        requires
            self.has_logs(),
            self.across(taker.side).dom().finite(),
            !taker.preview,
            self.matched(taker, to_fill) is Ok,
            crate::order_rules::cleared(
                self.matched(taker, to_fill)->Ok_0.ledger,
                taker,
                self.matched(taker, to_fill)->Ok_0.expired,
            ) is Ok,
        ensures
            ({
                let walked = self.matched(taker, to_fill)->Ok_0;
                let swept = crate::order_rules::cleared(walked.ledger, taker, walked.expired)->Ok_0;
                let side = taker.side.spec_opposite();
                let trades = crate::trades::trades_since(self.events, walked.ledger.events);
                let gone = expiries_since(walked.ledger.events, swept.events);
                &&& self.has_traded(taker, to_fill, walked.ledger, walked.tally)
                &&& walked.ledger.has_logs()
                &&& walked.ledger.has_swept(swept, taker.market, side, taker.factor as int, taker.now)
                &&& swept.has_logs()
                &&& crate::trades::trades_since(walked.ledger.events, swept.events).len() == 0
                &&& gone.len() <= 10
                &&& gone.len() < 10 ==> forall|key: u128, k: int|
                    0 <= k < trades.len() && #[trigger] self.is_late(side, key, taker.now) && is_ahead(
                        side,
                        key,
                        (#[trigger] trades[k]).maker_order_id,
                    ) ==> !swept.along(side).contains_key(key)
            }),
    {
        reveal(crate::order_rules::cleared);
        let walked = self.matched(taker, to_fill)->Ok_0;
        let swept = crate::order_rules::cleared(walked.ledger, taker, walked.expired)->Ok_0;
        let side = taker.side.spec_opposite();
        let trades = crate::trades::trades_since(self.events, walked.ledger.events);
        self.law_matching(taker, to_fill);
        self.law_expired_orders_are_noted(taker, to_fill);
        assert(self.along(side) == self.across(taker.side));
        assert(walked.ledger.along(side) == walked.ledger.across(taker.side));
        assert(self.yields(walked.ledger, taker.side, trades));
        assert forall|k: int| 0 <= k < walked.expired.len() implies walked.ledger.is_late(
            side,
            #[trigger] walked.expired[k],
            taker.now,
        ) by {
            let key = walked.expired[k];
            assert(self.is_late(side, key, taker.now));
            assert forall|j: int| 0 <= j < trades.len() implies (#[trigger] trades[j]).maker_order_id
                != key by {}
            assert(self.across(taker.side).contains_key(key));
        }
        walked.ledger.law_sweep(taker, walked.expired);
        if expiries_since(walked.ledger.events, swept.events).len() < 10 {
            assert forall|key: u128, k: int|
                0 <= k < trades.len() && #[trigger] self.is_late(side, key, taker.now) && is_ahead(
                    side,
                    key,
                    (#[trigger] trades[k]).maker_order_id,
                ) implies !swept.along(side).contains_key(key) by {
                assert(walked.expired.contains(key));
                let x = choose|x: int| 0 <= x < walked.expired.len() && walked.expired[x] == key;
                assert(walked.expired[x] == key);
            }
        }
    }
}

} // verus!
