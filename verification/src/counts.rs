//! What every instruction keeps of the book: the market counts its orders, and holds as many
//! market tokens for orders as the asks offer.
use crate::cancel::{BooksView, CancelOrder, ExpireOrder, ManagerCancelOrder};
use crate::context::{LimitOrder, MarketOrder, OrderContext};
use crate::exchange::Exchange;
use crate::ledger::{Fill, Ledger, Taker, Tally};
use crate::market::{MarketState, Side};
use crate::node::{CritMapHeader, OwnedNode};
use crate::order_book::OrderBook;
use crate::order_rules::{Desk, Rest};
use crate::pubkey::Pubkey;
use crate::records::Order;
use crate::shelf::Kept;
use vstd::prelude::*;

verus! {

/// The tokens that orders are for, all together.
pub open spec fn offered(orders: Map<u128, Kept<Order>>) -> int
    decreases orders.dom().len(),
    when orders.dom().finite()
{
    if orders.dom().len() == 0 {
        0
    } else {
        let key = orders.dom().choose();
        orders[key].value.amount + offered(orders.remove(key))
    }
}

/// Any order can be counted first.
proof fn lemma_offered_remove(orders: Map<u128, Kept<Order>>, key: u128)
    requires
        orders.dom().finite(),
        orders.contains_key(key),
    ensures
        offered(orders) == offered(orders.remove(key)) + orders[key].value.amount,
        orders.remove(key).dom().finite(),
        orders.remove(key).dom().len() == orders.dom().len() - 1,
    decreases orders.dom().len(),
{
    let first = orders.dom().choose();
    assert(orders.dom().contains(key));
    assert(orders.dom().len() > 0) by {
        assert(orders.dom().remove(key).len() == orders.dom().len() - 1);
    }
    assert(orders.dom().contains(first));
    assert(orders.remove(key).dom() =~= orders.dom().remove(key));
    if first != key {
        lemma_offered_remove(orders.remove(first), key);
        lemma_offered_remove(orders.remove(key), first);
        assert(orders.remove(first).remove(key) =~= orders.remove(key).remove(first));
    }
}

/// An order that is added or changed changes the sum by as much.
proof fn lemma_offered_insert(orders: Map<u128, Kept<Order>>, key: u128, kept: Kept<Order>)
    requires
        orders.dom().finite(),
    ensures
        offered(orders.insert(key, kept)) == offered(orders) + kept.value.amount - if orders.contains_key(
            key,
        ) {
            orders[key].value.amount as int
        } else {
            0
        },
        orders.insert(key, kept).dom().finite(),
        orders.insert(key, kept).dom().len() == orders.dom().len() + if orders.contains_key(key) {
            0int
        } else {
            1
        },
{
    let more = orders.insert(key, kept);
    assert(more.dom() =~= orders.dom().insert(key));
    lemma_offered_remove(more, key);
    if orders.contains_key(key) {
        lemma_offered_remove(orders, key);
        assert(more.remove(key) =~= orders.remove(key));
    } else {
        assert(more.remove(key) =~= orders);
    }
}

impl Ledger {
    /// Whether the orders are finitely many, each with a number that was given out, and each side
    /// has room for one.
    pub open spec fn has_books(self) -> bool {
        &&& self.bids.dom().finite()
        &&& self.asks.dom().finite()
        &&& self.bid_slots >= 1
        &&& self.ask_slots >= 1
        &&& self.numbered()
    }

    /// By how much the market's count of orders on a side exceeds the orders there.
    pub open spec fn miscount(self, side: Side) -> int {
        match side {
            Side::Bid => self.state.active_bid - self.bids.dom().len(),
            Side::Ask => self.state.active_ask - self.asks.dom().len(),
        }
    }

    /// Market tokens that are held for orders and that no ask offers.
    pub open spec fn idle(self) -> int {
        self.state.mkt_order_balance - offered(self.asks)
    }

    /// Whether the counts of orders are as right in `other`, and the idle tokens are `more`.
    pub open spec fn drifts(self, other: Ledger, more: int) -> bool {
        &&& other.bids.dom().finite()
        &&& other.asks.dom().finite()
        &&& other.miscount(Side::Bid) == self.miscount(Side::Bid)
        &&& other.miscount(Side::Ask) == self.miscount(Side::Ask)
        &&& other.idle() == self.idle() + more
    }

    proof fn lemma_settle_drifts(self, market: Pubkey, owner: Pubkey, mkt_token: bool, amount: u64, now: i64)
        requires
            self.bids.dom().finite(),
            self.asks.dom().finite(),
            self.settle(market, owner, mkt_token, amount, now) is Ok,
        ensures
            self.drifts(
                self.settle(market, owner, mkt_token, amount, now)->Ok_0,
                if mkt_token {
                    -amount
                } else {
                    0
                },
            ),
    {
    }

    proof fn lemma_taken_off_drifts(self, side: Side, key: u128)
        requires
            self.bids.dom().finite(),
            self.asks.dom().finite(),
            self.side(side).contains_key(key),
            self.taken_off(side, key) is Ok,
        ensures
            self.drifts(
                self.taken_off(side, key)->Ok_0,
                if side == Side::Ask {
                    self.side(side)[key].value.amount as int
                } else {
                    0
                },
            ),
    {
        lemma_offered_remove(self.side(side), key);
    }

    proof fn lemma_filled_drifts(self, taker: Taker, fill: Fill)
        requires
            self.bids.dom().finite(),
            self.asks.dom().finite(),
            self.filled(taker, fill) is Ok,
            self.side(taker.side.spec_opposite()).contains_key(fill.key),
            fill.maker_filled ==> fill.quantity == self.side(
                taker.side.spec_opposite(),
            )[fill.key].value.amount,
        ensures
            self.drifts(
                self.filled(taker, fill)->Ok_0,
                if taker.side == Side::Bid {
                    fill.quantity as int
                } else if taker.pays_by_fill {
                    0
                } else {
                    -fill.quantity
                },
            ),
    {
        let maker = taker.side.spec_opposite();
        let logged = self.logged(taker, fill)->Ok_0;
        let reduced = logged.reduced(maker, fill)->Ok_0;
        assert(logged.side(maker) == self.side(maker));
        if fill.maker_filled {
            logged.lemma_taken_off_drifts(maker, fill.key);
        } else {
            let kept = logged.side(maker)[fill.key];
            let amount = (kept.value.amount - fill.quantity) as u64;
            lemma_offered_insert(
                logged.side(maker),
                fill.key,
                Kept { owner: kept.owner, value: Order { amount, ..kept.value } },
            );
        }
        assert(self.drifts(
            reduced,
            if maker == Side::Ask {
                fill.quantity as int
            } else {
                0
            },
        ));
    }

    proof fn lemma_walk_drifts(self, taker: Taker, tally: Tally, keys: Seq<u128>, i: int, expired: Seq<u128>)
        requires
            !taker.preview,
            self.bids.dom().finite(),
            self.asks.dom().finite(),
            self.walk(taker, tally, keys, i, expired) is Ok,
            0 <= i,
            keys.no_duplicates(),
            forall|j: int|
                i <= j < keys.len() ==> self.side(taker.side.spec_opposite()).contains_key(
                    #[trigger] keys[j],
                ),
            expired.no_duplicates(),
            forall|x: int|
                0 <= x < expired.len() ==> self.side(taker.side.spec_opposite()).contains_key(
                    #[trigger] expired[x],
                ),
            forall|x: int, j: int|
                0 <= x < expired.len() && i <= j < keys.len() ==> #[trigger] expired[x]
                    != #[trigger] keys[j],
        ensures
            ({
                let end = self.walk(taker, tally, keys, i, expired)->Ok_0;
                let taken = end.tally.filled - tally.filled;
                &&& self.drifts(
                    end.ledger,
                    if taker.side == Side::Bid {
                        taken
                    } else if taker.pays_by_fill {
                        0
                    } else {
                        -taken
                    },
                )
                &&& end.expired.no_duplicates()
                &&& forall|x: int|
                    0 <= x < end.expired.len() ==> end.ledger.side(
                        taker.side.spec_opposite(),
                    ).contains_key(#[trigger] end.expired[x])
            }),
        decreases keys.len() - i,
    {
        let maker = taker.side.spec_opposite();
        if i < keys.len() {
            let key = keys[i];
            let kept = self.side(maker)[key];
            if crate::ledger::is_expired(kept.value, taker.now) {
                let met = expired.push(key);
                assert forall|x: int, j: int| 0 <= x < met.len() && i + 1 <= j < keys.len() implies #[trigger] met[x]
                    != #[trigger] keys[j] by {
                    if x < expired.len() {
                        assert(met[x] == expired[x]);
                    }
                }
                assert forall|x: int, y: int|
                    0 <= x < met.len() && 0 <= y < met.len() && x != y implies met[x] != met[y] by {
                    if x == expired.len() {
                        assert(expired[y] != keys[i]);
                    } else if y == expired.len() {
                        assert(expired[x] != keys[i]);
                    }
                }
                self.lemma_walk_drifts(taker, tally, keys, i + 1, met);
            } else if kept.owner == taker.user {
                self.lemma_walk_drifts(taker, tally, keys, i + 1, expired);
            } else if crate::ledger::within_limit(
                taker.side,
                taker.limit,
                crate::order_book::key_price(key),
            ) {
                let fill = taker.fill(tally, key, kept)->Ok_0;
                let next = taker.tallied(tally, fill)->Ok_0;
                assert(fill.key == key);
                self.lemma_filled_drifts(taker, fill);
                self.lemma_filled_within(taker, fill);
                let after = self.filled(taker, fill)->Ok_0;
                assert forall|x: int| 0 <= x < expired.len() implies after.side(maker).contains_key(
                    #[trigger] expired[x],
                ) by {
                    assert(expired[x] != keys[i]);
                }
                if !fill.last {
                    assert forall|j: int| i + 1 <= j < keys.len() implies after.side(maker).contains_key(
                        #[trigger] keys[j],
                    ) by {
                        assert(keys[j] != key);
                    }
                    after.lemma_walk_drifts(taker, next, keys, i + 1, expired);
                }
            }
        }
    }

    proof fn lemma_matched_drifts(self, taker: Taker, to_fill: u64)
        requires
            !taker.preview,
            self.bids.dom().finite(),
            self.asks.dom().finite(),
            self.matched(taker, to_fill) is Ok,
        ensures
            ({
                let end = self.matched(taker, to_fill)->Ok_0;
                &&& self.drifts(
                    end.ledger,
                    if taker.side == Side::Bid {
                        end.tally.filled as int
                    } else if taker.pays_by_fill {
                        0
                    } else {
                        -end.tally.filled
                    },
                )
                &&& end.expired.no_duplicates()
                &&& forall|x: int|
                    0 <= x < end.expired.len() ==> end.ledger.side(
                        taker.side.spec_opposite(),
                    ).contains_key(#[trigger] end.expired[x])
            }),
    {
        reveal(Ledger::matched);
        let maker = taker.side.spec_opposite();
        Self::lemma_best_first(maker, self.side(maker));
        self.lemma_walk_drifts(
            taker,
            Tally { to_fill, filled: 0, paid: 0, fee: 0 },
            crate::ledger::best_first(maker, self.side(maker)),
            0,
            Seq::empty(),
        );
    }

    proof fn lemma_returned_drifts(self, market: Pubkey, side: Side, key: u128, tokens: u64, now: i64)
        requires
            self.bids.dom().finite(),
            self.asks.dom().finite(),
            self.side(side).contains_key(key),
            side == Side::Ask ==> tokens == self.side(side)[key].value.amount,
            self.returned(market, side, key, tokens, now) is Ok,
        ensures
            self.drifts(self.returned(market, side, key, tokens, now)->Ok_0, 0),
            self.returned(market, side, key, tokens, now)->Ok_0.side(side) == self.side(side).remove(key),
    {
        let owner = self.side(side)[key].owner;
        self.lemma_settle_drifts(market, owner, side == Side::Ask, tokens, now);
        let after = self.settle(market, owner, side == Side::Ask, tokens, now)->Ok_0;
        assert(after.side(side) == self.side(side));
        after.lemma_taken_off_drifts(side, key);
    }

    proof fn lemma_swept_drifts(self, taker: Taker, expired: Seq<u128>, count: nat)
        requires
            self.bids.dom().finite(),
            self.asks.dom().finite(),
            expired.no_duplicates(),
            forall|x: int|
                0 <= x < expired.len() ==> self.side(taker.side.spec_opposite()).contains_key(
                    #[trigger] expired[x],
                ),
            self.swept(taker, expired, count) is Ok,
        ensures
            self.drifts(self.swept(taker, expired, count)->Ok_0, 0),
        decreases expired.len(),
    {
        let maker = taker.side.spec_opposite();
        if expired.len() > 0 && count < crate::market::MAX_EXPIRATIONS {
            let key = expired.last();
            assert(self.side(maker).contains_key(expired[expired.len() - 1]));
            let kept = self.side(maker)[key];
            let tokens = Self::held_by(maker, key, kept.value, taker.factor)->Ok_0;
            let after = self.expired_one(taker.market, maker, key, taker.factor, taker.now)->Ok_0;
            let reported = self.reporting(
                crate::market::Event::Expire(
                    crate::market::ExpireEvent {
                        event_type: crate::ledger::EXPIRE_EVENT,
                        action_id: self.state.action_counter,
                        market: taker.market,
                        owner: kept.owner,
                        order_side: maker.spec_code(),
                        order_id: key,
                        price: crate::order_book::key_price(key),
                        quantity: kept.value.amount,
                        tokens,
                    },
                ),
            );
            assert(reported.side(maker) == self.side(maker));
            reported.lemma_returned_drifts(taker.market, maker, key, tokens, taker.now);
            assert(self.drifts(after, 0));
            let rest = expired.drop_last();
            assert forall|x: int| 0 <= x < rest.len() implies after.side(maker).contains_key(
                #[trigger] rest[x],
            ) by {
                assert(rest[x] == expired[x]);
                assert(self.side(maker).contains_key(expired[x]));
                assert(expired[x] != expired[expired.len() - 1]);
            }
            after.lemma_swept_drifts(taker, rest, count + 1);
        }
    }

    proof fn lemma_cleared_drifts(self, taker: Taker, expired: Seq<u128>)
        requires
            !taker.preview,
            self.bids.dom().finite(),
            self.asks.dom().finite(),
            expired.no_duplicates(),
            forall|x: int|
                0 <= x < expired.len() ==> self.side(taker.side.spec_opposite()).contains_key(
                    #[trigger] expired[x],
                ),
            crate::order_rules::cleared(self, taker, expired) is Ok,
        ensures
            self.drifts(crate::order_rules::cleared(self, taker, expired)->Ok_0, 0),
            self.within(crate::order_rules::cleared(self, taker, expired)->Ok_0),
    {
        reveal(crate::order_rules::cleared);
        self.lemma_swept_drifts(taker, expired, 0);
        self.lemma_swept_within(taker, expired, 0);
    }

    proof fn lemma_posted_drifts(self, taker: Taker, price: u64, order: Order)
        requires
            self.has_books(),
            self.posted(taker, price, order) is Ok,
        ensures
            self.drifts(
                self.posted(taker, price, order)->Ok_0,
                if taker.side == Side::Ask {
                    -order.amount
                } else {
                    0
                },
            ),
    {
        reveal(Ledger::posted);
        let side = taker.side;
        let key = crate::order_book::order_key(side, price, self.state.order_counter);
        crate::ledger::lemma_order_key(side, price, self.state.order_counter);
        assert(!self.side(side).contains_key(key));
        let numbered = self.with_state(
            MarketState { order_counter: (self.state.order_counter + 1) as u64, ..self.state },
        );
        assert(numbered.side(side) == self.side(side));
        assert(self.drifts(numbered, 0));
        let roomy = if numbered.has_room(side) {
            numbered
        } else {
            let worst = numbered.worst(side);
            Self::lemma_best_first(side, numbered.side(side));
            let keys = crate::ledger::best_first(side, numbered.side(side));
            assert(keys.len() >= 1);
            assert(numbered.side(side).contains_key(keys[keys.len() - 1]));
            let tokens = Self::held_by(
                side,
                worst,
                numbered.side(side)[worst].value,
                taker.factor,
            )->Ok_0;
            numbered.lemma_returned_drifts(taker.market, side, worst, tokens, taker.now);
            numbered.evicted(taker, price)->Ok_0
        };
        assert(self.drifts(roomy, 0));
        lemma_offered_insert(roomy.side(side), key, Kept { owner: taker.user, value: order });
    }
}

/// Where a ledger that an order changed has drifted to after it is closed.
proof fn lemma_bid_closed_drifts(
    desk: Desk,
    ctx: OrderContext,
    order: LimitOrder,
    expiry: i64,
    brings: u64,
    tally: Tally,
    rest: Rest,
)
    requires
        !order.preview,
        desk.ledger.bids.dom().finite(),
        desk.ledger.asks.dom().finite(),
        crate::order_rules::bid_closed(desk, ctx, order, expiry, brings, tally, rest) is Ok,
    ensures
        desk.ledger.drifts(
            crate::order_rules::bid_closed(desk, ctx, order, expiry, brings, tally, rest)->Ok_0.desk.ledger,
            -tally.filled,
        ),
{
    reveal(crate::order_rules::bid_closed);
}

proof fn lemma_ask_closed_drifts(desk: Desk, ctx: OrderContext, order: LimitOrder, expiry: i64, tally: Tally, rest: Rest)
    requires
        !order.preview,
        desk.ledger.bids.dom().finite(),
        desk.ledger.asks.dom().finite(),
        crate::order_rules::ask_closed(desk, ctx, order, expiry, tally, rest) is Ok,
    ensures
        desk.ledger.drifts(
            crate::order_rules::ask_closed(desk, ctx, order, expiry, tally, rest)->Ok_0.desk.ledger,
            tally.filled + rest.posted_quantity - order.quantity,
        ),
{
    reveal(crate::order_rules::ask_closed);
}

proof fn lemma_market_closed_drifts(desk: Desk, ctx: OrderContext, order: MarketOrder, tally: Tally)
    requires
        !order.preview,
        desk.ledger.bids.dom().finite(),
        desk.ledger.asks.dom().finite(),
    ensures
        crate::order_rules::market_bid_closed(desk, ctx, order, tally) matches Ok(p)
            ==> desk.ledger.drifts(p.desk.ledger, -tally.filled),
        crate::order_rules::market_ask_closed(desk, ctx, order, tally) matches Ok(p)
            ==> desk.ledger.drifts(p.desk.ledger, 0),
{
    reveal(crate::order_rules::market_bid_closed);
    reveal(crate::order_rules::market_ask_closed);
}

/// A limit order keeps the counts of orders right, and no market tokens become idle.
#[verifier::rlimit(30)]
pub proof fn law_limit_counts(ledger: Ledger, ctx: OrderContext, side: Side, order: LimitOrder, new_log: (Pubkey, nat))
    requires
        ledger.has_books(),
        !order.preview,
    ensures
        crate::order_rules::limit(ledger, ctx, side, order, new_log) matches Ok(p) ==> ledger.drifts(
            p.desk.ledger,
            0,
        ),
{
    if crate::order_rules::limit(ledger, ctx, side, order, new_log) is Ok {
        let desk0 = Desk { ledger, purse: ctx.purse, new_log: None };
        let desk = crate::order_rules::readied(desk0, ctx, order.rollover, new_log)->Ok_0;
        assert(ledger.drifts(desk.ledger, 0) && desk.ledger.bids == ledger.bids && desk.ledger.asks
            == ledger.asks && desk.ledger.state.order_counter == ledger.state.order_counter
            && desk.ledger.bid_slots == ledger.bid_slots && desk.ledger.ask_slots == ledger.ask_slots)
            by {
            reveal(crate::order_rules::readied);
        }
        let expiry = crate::order_rules::expiry_of(ctx.market, order.expires, ctx.now)->Ok_0;
        let taker = crate::order_rules::limit_taker(ctx, side, order);
        assert(!taker.preview && taker.side == side && !taker.pays_by_fill && taker.by_quantity) by {
            reveal(crate::order_rules::limit_taker);
        }
        let brings = crate::order_rules::brought(side, order, taker.factor)->Ok_0;
        let opened = crate::order_rules::limit_opened(desk.ledger, ctx, side, order, brings)->Ok_0;
        assert(desk.ledger.drifts(
            opened,
            if side == Side::Ask {
                order.quantity as int
            } else {
                0
            },
        ) && opened.bids == desk.ledger.bids && opened.asks == desk.ledger.asks
            && opened.state.order_counter == desk.ledger.state.order_counter && opened.bid_slots
            == desk.ledger.bid_slots && opened.ask_slots == desk.ledger.ask_slots) by {
            reveal(crate::order_rules::limit_opened);
        }
        assert(opened.has_books()) by {
            assert forall|s: Side, key: u128| #[trigger] opened.side(s).contains_key(
                key,
            ) implies crate::ledger::key_number(s, key) < opened.state.order_counter by {
                assert(opened.side(s) == ledger.side(s));
                assert(ledger.side(s).contains_key(key));
            }
        }
        opened.lemma_matched_drifts(taker, order.quantity);
        opened.lemma_matched_within(taker, order.quantity);
        let walked = opened.matched(taker, order.quantity)->Ok_0;
        walked.ledger.lemma_cleared_drifts(taker, walked.expired);
        let swept = crate::order_rules::cleared(walked.ledger, taker, walked.expired)->Ok_0;
        opened.lemma_within_trans(walked.ledger, swept);
        opened.lemma_within_numbered(swept);
        assert(swept.has_books());
        let rest = crate::order_rules::limit_rest(swept, taker, order, expiry, walked.tally)->Ok_0;
        let remaining = order.quantity - walked.tally.filled;
        assert(swept.drifts(
            rest.ledger,
            if side == Side::Ask && order.post {
                -remaining
            } else {
                0
            },
        ) && remaining >= 0 && rest.posted_quantity == if order.post {
            remaining
        } else {
            0
        }) by {
            reveal(crate::order_rules::limit_rest);
            if remaining > 0 && order.post {
                swept.lemma_posted_drifts(
                    taker,
                    order.price,
                    Order { amount: remaining as u64, expiry },
                );
            }
        }
        let last = desk.with_ledger(rest.ledger);
        match side {
            Side::Bid => lemma_bid_closed_drifts(last, ctx, order, expiry, brings, walked.tally, rest),
            Side::Ask => lemma_ask_closed_drifts(last, ctx, order, expiry, walked.tally, rest),
        }
    }
}

/// A market order keeps the counts of orders right, and no market tokens become idle.
pub proof fn law_market_counts(ledger: Ledger, ctx: OrderContext, side: Side, order: MarketOrder, new_log: (Pubkey, nat))
    requires
        ledger.has_books(),
        !order.preview,
    ensures
        crate::order_rules::market(ledger, ctx, side, order, new_log) matches Ok(p) ==> ledger.drifts(
            p.desk.ledger,
            0,
        ),
{
    if crate::order_rules::market(ledger, ctx, side, order, new_log) is Ok {
        let desk0 = Desk { ledger, purse: ctx.purse, new_log: None };
        let desk = crate::order_rules::readied(desk0, ctx, order.rollover, new_log)->Ok_0;
        assert(ledger.drifts(desk.ledger, 0)) by {
            reveal(crate::order_rules::readied);
        }
        let taker = crate::order_rules::market_taker(ctx, side, order);
        assert(!taker.preview && taker.side == side && taker.pays_by_fill) by {
            reveal(crate::order_rules::market_taker);
        }
        let opened = desk.ledger.with_state(
            crate::order_rules::next_action(desk.ledger.state)->Ok_0,
        );
        let to_fill = if order.by_quantity {
            order.quantity
        } else {
            order.net_price
        };
        opened.lemma_matched_drifts(taker, to_fill);
        let walked = opened.matched(taker, to_fill)->Ok_0;
        walked.ledger.lemma_cleared_drifts(taker, walked.expired);
        let swept = crate::order_rules::cleared(walked.ledger, taker, walked.expired)->Ok_0;
        lemma_market_closed_drifts(desk.with_ledger(swept), ctx, order, walked.tally);
    }
}

/// A cancellation by the owner takes one order out of the count and its tokens out of those held.
pub proof fn law_cancel_counts(state: MarketState, orders: Map<u128, Kept<Order>>, ctx: CancelOrder, side: Side, id: u128)
    requires
        orders.dom().finite(),
    ensures
        crate::cancel::cancelled(state, orders, ctx, side, id) matches Ok(c) ==> {
            &&& c.orders.dom().finite()
            &&& side == Side::Bid ==> c.state.active_bid - c.orders.dom().len() == state.active_bid
                - orders.dom().len() && c.state.mkt_order_balance == state.mkt_order_balance
            &&& side == Side::Ask ==> c.state.active_ask - c.orders.dom().len() == state.active_ask
                - orders.dom().len() && c.state.mkt_order_balance - offered(c.orders)
                == state.mkt_order_balance - offered(orders)
        },
{
    if crate::cancel::cancelled(state, orders, ctx, side, id) is Ok {
        lemma_offered_remove(orders, id);
    }
}

impl BooksView {
    /// Whether the counts of orders are as right in `other`, and as many tokens are idle.
    pub open spec fn keeps_count(self, other: BooksView) -> bool {
        let a = self.settling.state;
        let b = other.settling.state;
        &&& other.bids.dom().finite()
        &&& other.asks.dom().finite()
        &&& b.active_bid - other.bids.dom().len() == a.active_bid - self.bids.dom().len()
        &&& b.active_ask - other.asks.dom().len() == a.active_ask - self.asks.dom().len()
        &&& b.mkt_order_balance - offered(other.asks) == a.mkt_order_balance - offered(self.asks)
    }
}

proof fn lemma_order_returned_counts(books: BooksView, market: Pubkey, side: Side, id: u128, tokens: u64, now: i64)
    requires
        books.bids.dom().finite(),
        books.asks.dom().finite(),
        books.side(side).contains_key(id),
        side == Side::Ask ==> tokens == books.side(side)[id].value.amount,
    ensures
        books.order_returned(market, side, id, tokens, now) matches Ok(after) ==> books.keeps_count(after),
{
    lemma_offered_remove(books.side(side), id);
}

proof fn lemma_log_added_counts(books: BooksView, market: Pubkey, rollover: bool, new_log: (Pubkey, nat))
    requires
        books.bids.dom().finite(),
        books.asks.dom().finite(),
    ensures
        books.log_added(market, rollover, new_log) matches Ok((after, _)) ==> books.keeps_count(after)
            && after.bids == books.bids && after.asks == books.asks,
{
}

/// A cancellation by the manager keeps the counts of orders right, and no market tokens become idle.
pub proof fn law_manager_cancel_counts(
    books: BooksView,
    ctx: ManagerCancelOrder,
    side: u8,
    id: u128,
    rollover: bool,
    new_log: (Pubkey, nat),
)
    requires
        books.bids.dom().finite(),
        books.asks.dom().finite(),
    ensures
        books.manager_cancelled(ctx, side, id, rollover, new_log) matches Ok(r) ==> books.keeps_count(
            r.books,
        ),
{
    if books.manager_cancelled(ctx, side, id, rollover, new_log) is Ok {
        lemma_log_added_counts(books, ctx.market_key, rollover, new_log);
        let added = books.log_added(ctx.market_key, rollover, new_log)->Ok_0.0;
        let s = Side::spec_of(side)->Some_0;
        assert(added.side(s) == books.side(s));
        let tokens = Ledger::held_by(
            s,
            id,
            added.side(s)[id].value,
            crate::math::units(ctx.market.mkt_decimals),
        )->Ok_0;
        lemma_order_returned_counts(added, ctx.market_key, s, id, tokens, ctx.now);
    }
}

/// The removal of an expired order keeps the counts of orders right, and no market tokens become
/// idle.
pub proof fn law_expire_counts(
    books: BooksView,
    ctx: ExpireOrder,
    side: u8,
    id: u128,
    rollover: bool,
    new_log: (Pubkey, nat),
)
    requires
        books.bids.dom().finite(),
        books.asks.dom().finite(),
    ensures
        books.expired(ctx, side, id, rollover, new_log) matches Ok(r) ==> books.keeps_count(r.books),
{
    if books.expired(ctx, side, id, rollover, new_log) is Ok {
        lemma_log_added_counts(books, ctx.market_key, rollover, new_log);
        let added = books.log_added(ctx.market_key, rollover, new_log)->Ok_0.0;
        let state = if rollover {
            crate::log_chain::reimbursed(
                added.settling.state,
                ctx.purse,
                ctx.market.log_reimburse,
            )->Ok_0.0
        } else {
            added.settling.state
        };
        let paid = added.with_state(state);
        let s = Side::spec_of(side)->Some_0;
        assert(paid.side(s) == books.side(s));
        if crate::ledger::is_expired(paid.side(s)[id].value, ctx.now) {
            let tokens = Ledger::held_by(
                s,
                id,
                paid.side(s)[id].value,
                crate::math::units(ctx.market.mkt_decimals),
            )->Ok_0;
            lemma_order_returned_counts(paid, ctx.market_key, s, id, tokens, ctx.now);
        }
    }
}

impl OrderBook {
    /// A sound book has room for an order on each side.
    proof fn lemma_has_slots(self)
        requires
            self.wf(),
        ensures
            self.slots(Side::Bid) >= 1,
            self.slots(Side::Ask) >= 1,
    {
        reveal(OrderBook::wf);
        self.slab.lemma_usable::<CritMapHeader, OwnedNode>(0);
        self.slab.lemma_usable::<CritMapHeader, OwnedNode>(1);
    }
}

impl Exchange {
    /// What a sound exchange holds is what these laws are about.
    pub proof fn law_exchange_has_books(self)
        requires
            self.wf(),
        ensures
            self.ledger().has_books(),
    {
        self.orders.lemma_size(Side::Bid);
        self.orders.lemma_size(Side::Ask);
        self.orders.lemma_has_slots();
    }
}

} // verus!
