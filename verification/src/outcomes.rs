//! What limit orders and market orders come to, told from what they report: the trades they make,
//! what their users pay and get, and what becomes of the book, the accounts and the totals.
use crate::context::{LimitOrder, MarketOrder, OrderContext, Transfer};
use crate::ledger::{Ledger, Taker, Tally, Walked};
use crate::market::{ErrorCode, Event, ExpireEvent, MarketState, MatchEvent, MintType, Side};
use crate::order_rules::{Desk, Placed, Rest};
use crate::pubkey::Pubkey;
use crate::records::Order;
use crate::shelf::Kept;
use crate::trades::Kinds;
use vstd::prelude::*;

verus! {

/// The smallest units in one market token.
pub open spec fn units_of(decimals: u8) -> int {
    vstd::arithmetic::power::pow(10, decimals as nat)
}

pub proof fn lemma_units(decimals: u8)
    requires
        decimals <= 19,
    ensures
        crate::math::units(decimals) == units_of(decimals),
        units_of(decimals) > 0,
{
    vstd::arithmetic::power::lemma_pow_positive(10, decimals as nat);
    vstd::arithmetic::power::lemma_pow_increases(10, decimals as nat, 19);
    assert(vstd::arithmetic::power::pow(10, 19) == 10000000000000000000) by {
        reveal_with_fuel(vstd::arithmetic::power::pow, 21);
    }
}

proof fn lemma_in_split(a: Seq<Event>, b: Seq<Event>)
    ensures
        crate::trades::trades_in(a + b) == crate::trades::trades_in(a) + crate::trades::trades_in(b),
        crate::refunds::expiries_in(a + b) == crate::refunds::expiries_in(a) + crate::refunds::expiries_in(b),
    decreases b.len(),
{
    if b.len() == 0 {
        assert(a + b =~= a);
        assert(crate::trades::trades_in(a) + crate::trades::trades_in(b) =~= crate::trades::trades_in(a));
        assert(crate::refunds::expiries_in(a) + crate::refunds::expiries_in(b) =~= crate::refunds::expiries_in(a));
    } else {
        assert((a + b).drop_last() =~= a + b.drop_last());
        assert((a + b).last() == b.last());
        lemma_in_split(a, b.drop_last());
        match b.last() {
            Event::Match(t) => {
                assert(crate::trades::trades_in(a) + crate::trades::trades_in(b.drop_last()).push(t) =~= (crate::trades::trades_in(a) + crate::trades::trades_in(
                    b.drop_last(),
                )).push(t));
            },
            Event::Expire(e) => {
                assert(crate::refunds::expiries_in(a) + crate::refunds::expiries_in(b.drop_last()).push(e) =~= (crate::refunds::expiries_in(a)
                    + crate::refunds::expiries_in(b.drop_last())).push(e));
            },
            _ => {},
        }
    }
}

/// Whether the events of `before` come first in `after`.
pub open spec fn goes_on(before: Seq<Event>, after: Seq<Event>) -> bool {
    &&& before.len() <= after.len()
    &&& forall|k: int| 0 <= k < before.len() ==> #[trigger] after[k] == before[k]
}

/// What is reported up to `c` is what is reported up to `b` and then what is reported up to `c`.
proof fn lemma_since(a: Seq<Event>, b: Seq<Event>, c: Seq<Event>)
    requires
        a.len() <= b.len(),
        goes_on(b, c),
    ensures
        crate::trades::trades_since(a, c) == crate::trades::trades_since(a, b) + crate::trades::trades_since(b, c),
        crate::refunds::expiries_since(a, c) == crate::refunds::expiries_since(a, b) + crate::refunds::expiries_since(b, c),
{
    let n = a.len() as int;
    let m = b.len() as int;
    assert(c.skip(n) =~= b.skip(n) + c.skip(m)) by {
        assert forall|k: int| 0 <= k < c.len() - n implies c.skip(n)[k] == (b.skip(n) + c.skip(m))[k] by {
            if k < m - n {
                assert(c[n + k] == b[n + k]);
            }
        }
    }
    lemma_in_split(b.skip(n), c.skip(m));
}

/// Where nothing is a trade, or nothing an expired order, none is found.
proof fn lemma_in_none(events: Seq<Event>)
    ensures
        (forall|k: int| 0 <= k < events.len() ==> !((#[trigger] events[k]) is Match)) ==> crate::trades::trades_in(
            events,
        ).len() == 0,
        (forall|k: int| 0 <= k < events.len() ==> !((#[trigger] events[k]) is Expire)) ==> crate::refunds::expiries_in(
            events,
        ).len() == 0,
    decreases events.len(),
{
    if events.len() > 0 {
        let rest = events.drop_last();
        lemma_in_none(rest);
        assert(events.last() == events[events.len() - 1]);
        if forall|k: int| 0 <= k < events.len() ==> !((#[trigger] events[k]) is Match) {
            assert forall|k: int| 0 <= k < rest.len() implies !((#[trigger] rest[k]) is Match) by {
                assert(rest[k] == events[k]);
            }
        }
        if forall|k: int| 0 <= k < events.len() ==> !((#[trigger] events[k]) is Expire) {
            assert forall|k: int| 0 <= k < rest.len() implies !((#[trigger] rest[k]) is Expire) by {
                assert(rest[k] == events[k]);
            }
        }
    }
}

/// Events that are neither trades nor expired orders add none.
proof fn lemma_since_push(a: Seq<Event>, b: Seq<Event>, event: Event)
    requires
        a.len() <= b.len(),
        !(event is Match),
        !(event is Expire),
    ensures
        crate::trades::trades_since(a, b.push(event)) == crate::trades::trades_since(a, b),
        crate::refunds::expiries_since(a, b.push(event)) == crate::refunds::expiries_since(a, b),
{
    let n = a.len() as int;
    assert(b.push(event).skip(n).drop_last() =~= b.skip(n));
    assert(b.push(event).skip(n).last() == event);
}

impl Ledger {
    /// Matching reports no expired orders.
    proof fn lemma_matching_tells(
        self,
        after: Ledger,
        market: Pubkey,
        side: Side,
        factor: int,
        net: Option<u64>,
        trades: Seq<MatchEvent>,
    )
        requires
            self.tells(after, market, side, factor, net, trades),
        ensures
            goes_on(self.events, after.events),
            crate::refunds::expiries_since(self.events, after.events).len() == 0,
    {
        let start = self.events.len() as int;
        let new = after.events.skip(start);
        assert forall|j: int| 0 <= j < new.len() implies !((#[trigger] new[j]) is Expire) by {
            let k = j / 2;
            assert(0 <= k < trades.len());
            assert(self.tells_one(
                after.events[start + 2 * k],
                after.events[start + 2 * k + 1],
                market,
                side,
                crate::trades::last_tokens(trades.take(k + 1), factor, net),
                trades[k],
            ));
            assert(j == 2 * k || j == 2 * k + 1);
            assert(new[j] == after.events[start + j]);
        }
        lemma_in_none(new);
    }
}

impl Ledger {
    /// Whether `out` is the order that leaves the book where one is posted: on a full side the one
    /// that comes last, if the new price is better, and none on a side with room.
    pub open spec fn makes_room(self, side: Side, price: u64, posting: bool, out: Option<u128>) -> bool {
        let slots = match side {
            Side::Bid => self.bid_slots,
            Side::Ask => self.ask_slots,
        };
        let full = 2 * self.along(side).len() + 1 > slots;
        &&& out is Some <==> posting && full
        &&& out matches Some(last) ==> crate::refunds::comes_last(side, self.along(side), last) && match side {
            Side::Bid => price > (last >> 64) as u64,
            Side::Ask => price < (last >> 64) as u64,
        }
    }

    /// The orders of a side without the one that leaves.
    pub open spec fn remaining(self, side: Side, out: Option<u128>) -> Map<u128, Kept<Order>> {
        match out {
            Some(last) => self.along(side).remove(last),
            None => self.along(side),
        }
    }

    /// What the order that leaves holds.
    pub open spec fn value_out(self, side: Side, factor: int, out: Option<u128>) -> int {
        match out {
            Some(last) => crate::refunds::value_of(side, last, self.along(side)[last].value, factor),
            None => 0,
        }
    }

    /// What the order that leaves brings to an account.
    pub open spec fn value_out_to(self, side: Side, factor: int, out: Option<u128>, id: u128) -> int {
        match out {
            Some(last) if crate::trades::account_of(self.along(side)[last].owner) == id => crate::refunds::value_of(
                side,
                last,
                self.along(side)[last].value,
                factor,
            ),
            _ => 0,
        }
    }

    /// What posting an order does.
    spec fn puts_up(self, after: Ledger, taker: Taker, price: u64, order: Order, key: u128, out: Option<u128>) -> bool {
        let side = taker.side;
        let factor = taker.factor as int;
        let value = self.value_out(side, factor, out);
        let s = self.state;
        let e = after.state;
        &&& self.makes_room(side, price, true, out)
        &&& crate::refunds::is_key_of(key, side, price, s.order_counter)
        &&& !self.along(side).contains_key(key)
        &&& after.along(side) == self.remaining(side, out).insert(
            key,
            Kept { owner: taker.user, value: order },
        )
        &&& after.across(side) == self.across(side)
        &&& after.trades == self.trades
        &&& forall|id: u128, m: bool| #[trigger]
            crate::trades::held_in(after.log_a, after.log_b, id, m) == crate::trades::held_in(self.log_a, self.log_b, id, m) + if m
                == (side == Side::Ask) {
                self.value_out_to(side, factor, out, id)
            } else {
                0
            }
        &&& crate::trades::same_log(self.log_a, after.log_a)
        &&& crate::trades::same_log(self.log_b, after.log_b)
        &&& crate::refunds::gives_back(
            s,
            MarketState {
                order_counter: s.order_counter,
                active_bid: if side == Side::Bid && out is Some {
                    (s.active_bid - 1) as u64
                } else {
                    s.active_bid
                },
                active_ask: if side == Side::Ask && out is Some {
                    (s.active_ask - 1) as u64
                } else {
                    s.active_ask
                },
                ..e
            },
            side,
            if out is Some {
                1
            } else {
                0
            },
            value,
        )
        &&& e.order_counter == s.order_counter + 1
        &&& e.active_bid == s.active_bid + if side == Side::Bid && out is None {
            1int
        } else {
            0
        }
        &&& e.active_ask == s.active_ask + if side == Side::Ask && out is None {
            1int
        } else {
            0
        }
        &&& after.has_logs()
        &&& out is None ==> after.events == self.events
        &&& out is Some ==> after.events == self.events.push(after.events.last()) && crate::refunds::is_paid(
            after.events.last(),
            s.action_counter,
            taker.market,
            self.along(side)[out->Some_0].owner,
            self.log_a,
            self.log_b,
            side == Side::Ask,
            value,
        )
    }

    proof fn lemma_last_exists(side: Side, orders: Map<u128, Kept<Order>>)
        requires
            orders.dom().finite(),
            orders.len() > 0,
        ensures
            crate::refunds::comes_last(side, orders, crate::ledger::best_first(side, orders).last()),
    {
        let keys = crate::ledger::best_first(side, orders);
        Ledger::lemma_best_first(side, orders);
        let y = keys.len() - 1;
        assert(orders.contains_key(keys[y]));
        assert forall|key: u128| #[trigger] orders.contains_key(key) implies match side {
            Side::Bid => keys.last() <= key,
            Side::Ask => keys.last() >= key,
        } by {
            assert(keys.contains(key));
            let x = choose|x: int| 0 <= x < keys.len() && keys[x] == key;
            if x < y {
                match side {
                    Side::Bid => {
                        assert(keys[x] > keys[y]);
                    },
                    Side::Ask => {
                        assert(keys[x] < keys[y]);
                    },
                }
            }
        }
    }

    #[verifier::rlimit(60)]
    proof fn lemma_puts_up(self, taker: Taker, price: u64, order: Order) -> (r: (u128, Option<u128>))
        requires
            self.numbered(),
            self.along(taker.side).dom().finite(),
            self.bid_slots >= 1,
            self.ask_slots >= 1,
            self.has_logs(),
            self.state.order_counter < u64::MAX,
            self.posted(taker, price, order) is Ok,
        ensures
            self.puts_up(self.posted(taker, price, order)->Ok_0, taker, price, order, r.0, r.1),
            r.0 == crate::order_book::order_key(taker.side, price, self.state.order_counter),
    {
        let side = taker.side;
        let after = self.posted(taker, price, order)->Ok_0;
        let slots = match side {
            Side::Bid => self.bid_slots,
            Side::Ask => self.ask_slots,
        };
        crate::refunds::lemma_is_key_of(side, price, self.state.order_counter);
        if 2 * self.along(side).len() + 1 <= slots {
            self.law_post(taker, price, order);
            let key = choose|key: u128|
                {
                    &&& #[trigger] crate::refunds::is_key_of(key, taker.side, price, self.state.order_counter)
                    &&& !self.along(taker.side).contains_key(key)
                    &&& after.along(taker.side) == self.along(taker.side).insert(
                        key,
                        Kept { owner: taker.user, value: order },
                    )
                    &&& after.across(taker.side) == self.across(taker.side)
                    &&& crate::refunds::counts_one(self.state, after.state, taker.side)
                    &&& after == (Ledger {
                        bids: after.bids,
                        asks: after.asks,
                        state: after.state,
                        ..self
                    })
                };
            assert(self.puts_up(after, taker, price, order, key, None));
            (key, None)
        } else {
            let last = crate::ledger::best_first(side, self.along(side)).last();
            Ledger::lemma_last_exists(side, self.along(side));
            self.law_post_on_full_side(taker, price, order, last);
            let (key, freed) = choose|key: u128, freed: Ledger|
                {
                    &&& #[trigger] crate::refunds::is_key_of(key, taker.side, price, self.state.order_counter)
                    &&& !self.along(taker.side).contains_key(key)
                    &&& #[trigger] self.hands_back(
                        freed,
                        taker.market,
                        taker.side,
                        last,
                        taker.factor as int,
                    )
                    &&& after.along(taker.side) == freed.along(taker.side).insert(
                        key,
                        Kept { owner: taker.user, value: order },
                    )
                    &&& after.across(taker.side) == freed.across(taker.side)
                    &&& crate::refunds::counts_one(freed.state, after.state, taker.side)
                    &&& after == (Ledger {
                        bids: after.bids,
                        asks: after.asks,
                        state: after.state,
                        ..freed
                    })
                    &&& after.has_logs()
                };
            assert(after.events == self.events.push(after.events.last())) by {
                assert(after.events.drop_last().push(after.events.last()) =~= after.events);
            }
            assert(self.puts_up(after, taker, price, order, key, Some(last)));
            (key, Some(last))
        }
    }
}

/// By how much the totals of a market change.
pub struct Moves {
    pub mkt_vault: int,
    pub mkt_order: int,
    pub mkt_log: int,
    pub prc_vault: int,
    pub prc_order: int,
    pub prc_log: int,
    pub prc_fees: int,
    /// Lamports deposited for logs.
    pub deposit: int,
    pub bids: int,
    pub asks: int,
    /// Numbers of orders that are given out.
    pub orders: int,
    pub actions: int,
}

impl MarketState {
    /// Whether the totals have changed by so much, and those of the users' vaults have not.
    pub open spec fn moved_by(self, after: MarketState, m: Moves) -> bool {
        &&& after.mkt_vault_balance == self.mkt_vault_balance + m.mkt_vault
        &&& after.mkt_order_balance == self.mkt_order_balance + m.mkt_order
        &&& after.mkt_log_balance == self.mkt_log_balance + m.mkt_log
        &&& after.prc_vault_balance == self.prc_vault_balance + m.prc_vault
        &&& after.prc_order_balance == self.prc_order_balance + m.prc_order
        &&& after.prc_log_balance == self.prc_log_balance + m.prc_log
        &&& after.prc_fees_balance == self.prc_fees_balance + m.prc_fees
        &&& after.log_deposit_balance == self.log_deposit_balance + m.deposit
        &&& after.active_bid == self.active_bid + m.bids
        &&& after.active_ask == self.active_ask + m.asks
        &&& after.order_counter == self.order_counter + m.orders
        &&& after.action_counter == self.action_counter + m.actions
        &&& after.trade_counter == self.trade_counter
        &&& after.mkt_user_vault_balance == self.mkt_user_vault_balance
        &&& after.prc_user_vault_balance == self.prc_user_vault_balance
    }
}

/// Whether a transfer, if there is one, moves so many tokens of the program with a number, and there
/// is one unless it may be left out.
pub open spec fn is_transfer(transfer: Option<Transfer>, mint: u8, amount: int, left_out: bool) -> bool {
    match transfer {
        Some(t) => !left_out && t.amount == amount && t.mint_type == match mint {
            0u8 => MintType::SPLToken,
            _ => MintType::AtxSecurityToken,
        } && mint <= 1,
        None => left_out,
    }
}

/// Whether an event is the report of an order of a user.
pub open spec fn is_report(event: Event, ctx: OrderContext, side: Side, action: int, placed: Placed) -> bool {
    &&& event is Order
    &&& event->Order_0.action_id == action
    &&& event->Order_0.market == ctx.market_key
    &&& event->Order_0.user == ctx.user
    &&& event->Order_0.market_token == ctx.user_mkt_token.key
    &&& event->Order_0.pricing_token == ctx.user_prc_token.key
    &&& event->Order_0.order_side == match side {
        Side::Bid => 0u8,
        Side::Ask => 1u8,
    }
    &&& event->Order_0.order_id == placed.result.order_id
    &&& event->Order_0.tokens_sent == placed.result.tokens_sent
    &&& event->Order_0.tokens_received == placed.result.tokens_received
    &&& event->Order_0.tokens_fee == placed.result.tokens_fee
    &&& event->Order_0.posted == (placed.result.posted_quantity > 0)
    &&& event->Order_0.posted_quantity == placed.result.posted_quantity
}

/// What the closing of an order leaves of the ledger, and how it changes the state.
spec fn closes(before: Ledger, after: Ledger, m: Moves) -> bool {
    let s = before.state;
    let e = after.state;
    &&& after == (Ledger { state: e, events: after.events, ..before })
    &&& after.events.len() > 0
    &&& after.events == before.events.push(after.events.last())
    &&& s.moved_by(e, m)
    &&& e.settle_a == s.settle_a
    &&& e.settle_b == s.settle_b
    &&& e.log_rollover == s.log_rollover
    &&& e.last_price == s.last_price
    &&& e.last_ts == s.last_ts
}

#[verifier::rlimit(40)]
proof fn lemma_bid_closes(
    desk: Desk,
    ctx: OrderContext,
    order: LimitOrder,
    expiry: i64,
    brings: u64,
    tally: Tally,
    rest: Rest,
)
    requires
        !order.preview,
    ensures
        crate::order_rules::bid_closed(desk, ctx, order, expiry, brings, tally, rest) matches Ok(p) ==> {
            let report = p.desk.ledger.events.last();
            &&& closes(
                desk.ledger,
                p.desk.ledger,
                Moves {
                    mkt_vault: -(tally.filled as int),
                    mkt_order: -(tally.filled as int),
                    mkt_log: 0,
                    prc_vault: rest.paid - brings + tally.fee,
                    prc_order: rest.paid - brings,
                    prc_log: 0,
                    prc_fees: tally.fee as int,
                    deposit: ctx.market.log_fee as int,
                    bids: 0,
                    asks: 0,
                    orders: 0,
                    actions: 0,
                },
            )
            &&& report->Order_0.event_type == 58862986463747312203336335289809479007
            &&& is_report(report, ctx, Side::Bid, desk.ledger.state.action_counter as int, p)
            &&& report->Order_0.filled == (tally.filled == order.quantity)
            &&& report->Order_0.order_price == order.price
            &&& report->Order_0.order_quantity == order.quantity
            &&& report->Order_0.expires == expiry
            &&& p.result.tokens_received == tally.filled
            &&& p.result.tokens_sent == rest.paid + tally.fee
            &&& p.result.tokens_fee == tally.fee
            &&& p.result.posted_quantity == rest.posted_quantity
            &&& p.result.order_id == rest.order_id
            &&& is_transfer(p.deposit, ctx.market.prc_mint_type, rest.paid + tally.fee, false)
            &&& is_transfer(
                p.payout,
                ctx.market.mkt_mint_type,
                tally.filled as int,
                tally.filled == 0,
            )
            &&& p.desk.purse.user_lamports == desk.purse.user_lamports - ctx.market.log_fee
            &&& p.desk.purse.state_lamports == desk.purse.state_lamports + ctx.market.log_fee
            &&& p.desk.new_log == desk.new_log
        },
{
    reveal(crate::order_rules::bid_closed);
}

#[verifier::rlimit(40)]
proof fn lemma_ask_closes(desk: Desk, ctx: OrderContext, order: LimitOrder, expiry: i64, tally: Tally, rest: Rest)
    requires
        !order.preview,
        tally.filled == 0 ==> tally.paid == 0 && tally.fee == 0,
    ensures
        crate::order_rules::ask_closed(desk, ctx, order, expiry, tally, rest) matches Ok(p) ==> {
            let report = p.desk.ledger.events.last();
            let sent = tally.filled + rest.posted_quantity;
            &&& closes(
                desk.ledger,
                p.desk.ledger,
                Moves {
                    mkt_vault: sent - order.quantity,
                    mkt_order: sent - order.quantity,
                    mkt_log: 0,
                    prc_vault: tally.fee - tally.paid,
                    prc_order: -(tally.paid as int),
                    prc_log: 0,
                    prc_fees: tally.fee as int,
                    deposit: ctx.market.log_fee as int,
                    bids: 0,
                    asks: 0,
                    orders: 0,
                    actions: 0,
                },
            )
            &&& report->Order_0.event_type == 295320270387787716737004386297471454892
            &&& is_report(report, ctx, Side::Ask, desk.ledger.state.action_counter as int, p)
            &&& report->Order_0.filled == (tally.filled == order.quantity)
            &&& report->Order_0.order_price == order.price
            &&& report->Order_0.order_quantity == order.quantity
            &&& report->Order_0.expires == expiry
            &&& p.result.tokens_received == tally.paid - tally.fee
            &&& p.result.tokens_sent == sent
            &&& p.result.tokens_fee == tally.fee
            &&& p.result.posted_quantity == rest.posted_quantity
            &&& p.result.order_id == rest.order_id
            &&& is_transfer(p.deposit, ctx.market.mkt_mint_type, sent, false)
            &&& is_transfer(
                p.payout,
                ctx.market.prc_mint_type,
                tally.paid - tally.fee,
                tally.filled == 0,
            )
            &&& p.desk.purse.user_lamports == desk.purse.user_lamports - ctx.market.log_fee
            &&& p.desk.purse.state_lamports == desk.purse.state_lamports + ctx.market.log_fee
            &&& p.desk.new_log == desk.new_log
        },
{
    reveal(crate::order_rules::ask_closed);
}

#[verifier::rlimit(40)]
proof fn lemma_market_bid_closes(desk: Desk, ctx: OrderContext, order: MarketOrder, tally: Tally)
    requires
        !order.preview,
    ensures
        crate::order_rules::market_bid_closed(desk, ctx, order, tally) matches Ok(p) ==> {
            let report = p.desk.ledger.events.last();
            &&& closes(
                desk.ledger,
                p.desk.ledger,
                Moves {
                    mkt_vault: -(tally.filled as int),
                    mkt_order: -(tally.filled as int),
                    mkt_log: 0,
                    prc_vault: tally.fee as int,
                    prc_order: 0,
                    prc_log: 0,
                    prc_fees: tally.fee as int,
                    deposit: 0,
                    bids: 0,
                    asks: 0,
                    orders: 0,
                    actions: 0,
                },
            )
            &&& report->Order_0.event_type == 151919600483167167737000078670308605753
            &&& is_report(report, ctx, Side::Bid, desk.ledger.state.action_counter as int, p)
            &&& report->Order_0.filled == if order.by_quantity {
                tally.filled == order.quantity
            } else {
                tally.paid + tally.fee == order.net_price
            }
            &&& report->Order_0.order_price == order.net_price
            &&& report->Order_0.order_quantity == order.quantity
            &&& report->Order_0.expires == 0
            &&& p.result.tokens_received == tally.filled
            &&& p.result.tokens_sent == tally.paid + tally.fee
            &&& p.result.tokens_fee == tally.fee
            &&& p.result.posted_quantity == 0
            &&& p.result.order_id == 0
            &&& is_transfer(p.deposit, ctx.market.prc_mint_type, tally.paid + tally.fee, false)
            &&& is_transfer(
                p.payout,
                ctx.market.mkt_mint_type,
                tally.filled as int,
                tally.filled == 0,
            )
            &&& p.desk.purse == desk.purse
            &&& p.desk.new_log == desk.new_log
        },
{
    reveal(crate::order_rules::market_bid_closed);
}

#[verifier::rlimit(40)]
proof fn lemma_market_ask_closes(desk: Desk, ctx: OrderContext, order: MarketOrder, tally: Tally)
    requires
        !order.preview,
    ensures
        crate::order_rules::market_ask_closed(desk, ctx, order, tally) matches Ok(p) ==> {
            let report = p.desk.ledger.events.last();
            let got = if tally.filled == 0 {
                0
            } else {
                tally.paid - tally.fee
            };
            let kept = if tally.filled == 0 {
                0
            } else {
                tally.fee as int
            };
            &&& closes(
                desk.ledger,
                p.desk.ledger,
                Moves {
                    mkt_vault: 0,
                    mkt_order: 0,
                    mkt_log: 0,
                    prc_vault: -got,
                    prc_order: -got - kept,
                    prc_log: 0,
                    prc_fees: kept,
                    deposit: 0,
                    bids: 0,
                    asks: 0,
                    orders: 0,
                    actions: 0,
                },
            )
            &&& report->Order_0.event_type == 116790064293172396704069821733243480358
            &&& is_report(report, ctx, Side::Ask, desk.ledger.state.action_counter as int, p)
            &&& order.by_quantity ==> report->Order_0.filled == (tally.filled == order.quantity)
            &&& !order.by_quantity && tally.filled > 0 ==> report->Order_0.filled == (got
                == order.net_price)
            &&& report->Order_0.order_price == order.net_price
            &&& report->Order_0.order_quantity == order.quantity
            &&& report->Order_0.expires == 0
            &&& p.result.tokens_received == got
            &&& p.result.tokens_sent == tally.filled
            &&& p.result.tokens_fee == tally.fee
            &&& p.result.posted_quantity == 0
            &&& p.result.order_id == 0
            &&& is_transfer(p.deposit, ctx.market.mkt_mint_type, tally.filled as int, false)
            &&& is_transfer(p.payout, ctx.market.prc_mint_type, got, tally.filled == 0)
            &&& p.desk.purse == desk.purse
            &&& p.desk.new_log == desk.new_log
        },
{
    reveal(crate::order_rules::market_ask_closed);
}

/// Whether a new log is put behind the second one: the second log is the active one from now on, and
/// the new one, which is empty, is the next. Nothing is asked for any more.
pub open spec fn adds_log(before: Ledger, after: Ledger, market: Pubkey, key: Pubkey, slots: nat, new_log: Option<crate::settlement::LogView>) -> bool {
    &&& before.state.log_rollover
    &&& after.state.settle_a == before.log_b.key
    &&& after.state.settle_b == key
    &&& !after.state.log_rollover
    &&& after.log_a == before.log_a
    &&& after.log_b.key == before.log_b.key
    &&& after.log_b.entries == before.log_b.entries
    &&& after.log_b.slots == before.log_b.slots
    &&& after.log_b.header.market == before.log_b.header.market
    &&& after.log_b.header.prev == before.log_b.header.prev
    &&& after.log_b.header.items == before.log_b.header.items
    &&& after.log_b.header.next == key
    &&& new_log is Some
    &&& new_log->Some_0.key == key
    &&& new_log->Some_0.header.market == market
    &&& new_log->Some_0.header.prev == before.log_b.key
    &&& new_log->Some_0.header.next == Pubkey::zero()
    &&& new_log->Some_0.header.items == 0
    &&& new_log->Some_0.entries.dom() == Set::<u128>::empty()
    &&& new_log->Some_0.slots == slots
}

/// What is done before an order is let in: a new log is added if the order brings one, and the user
/// is paid back for it.
pub open spec fn readies(ledger: Ledger, ctx: OrderContext, rollover: bool, new_log: (Pubkey, nat), desk: Desk) -> bool {
    let paid = if rollover {
        ctx.market.log_reimburse as int
    } else {
        0
    };
    let l = desk.ledger;
    &&& rollover ==> adds_log(ledger, l, ctx.market_key, new_log.0, new_log.1, desk.new_log)
    &&& !rollover ==> l == ledger && desk.new_log is None
    &&& l == (Ledger { state: l.state, log_b: l.log_b, ..ledger })
    &&& l.state == (MarketState {
        settle_a: l.state.settle_a,
        settle_b: l.state.settle_b,
        log_rollover: l.state.log_rollover,
        log_deposit_balance: l.state.log_deposit_balance,
        ..ledger.state
    })
    &&& l.state.log_deposit_balance == ledger.state.log_deposit_balance - paid
    &&& desk.purse.user_lamports == ctx.purse.user_lamports + paid
    &&& desk.purse.state_lamports == ctx.purse.state_lamports - paid
}

#[verifier::rlimit(30)]
proof fn lemma_readies(ledger: Ledger, ctx: OrderContext, rollover: bool, new_log: (Pubkey, nat))
    ensures
        crate::order_rules::readied(
            Desk { ledger, purse: ctx.purse, new_log: None },
            ctx,
            rollover,
            new_log,
        ) matches Ok(desk) ==> readies(ledger, ctx, rollover, new_log, desk),
{
    reveal(crate::order_rules::readied);
    assert(Map::<u128, Kept<crate::records::AccountEntry>>::empty().dom() =~= Set::<u128>::empty());
}

/// The numbers of the trades of limit orders.
pub open spec fn limit_kinds(side: Side) -> Kinds {
    match side {
        Side::Bid => Kinds {
            exact: 207368829214137069500050352632921761096,
            entire: 227168296477409633500015956081940497570,
            partial: 94062763214239030578622318919331863353,
        },
        Side::Ask => Kinds {
            exact: 325819153524900178081877579778492284961,
            entire: 114544905925567569513505448268003180936,
            partial: 282510189476950091999666304965232626740,
        },
    }
}

/// The numbers of the trades of market orders.
pub open spec fn market_kinds(side: Side, by_quantity: bool) -> Kinds {
    match (side, by_quantity) {
        (Side::Bid, true) => Kinds {
            exact: 97879353062914658353780090028087623355,
            entire: 98887148454935384202006639804150096432,
            partial: 241528249049192735796332143519520355761,
        },
        (Side::Bid, false) => Kinds {
            exact: 331852354717548342008417076114136032746,
            entire: 30314321964017162377189412309266042294,
            partial: 237563056127520713232024370460619306548,
        },
        (Side::Ask, true) => Kinds {
            exact: 176535012143782409593813433848999612355,
            entire: 277111811349020061708541382826182055538,
            partial: 338129135642557935308794285239529753670,
        },
        (Side::Ask, false) => Kinds {
            exact: 38185514874311817824997288786026180382,
            entire: 48115079441646063920817461881527222742,
            partial: 338446361041777477888718125403430758950,
        },
    }
}

/// A limit order on its way, from the matching to the closing.
struct Steps {
    desk: Desk,
    expiry: i64,
    taker: Taker,
    brings: u64,
    opened: Ledger,
    walked: Walked,
    swept: Ledger,
    rest: Rest,
    key: u128,
    out: Option<u128>,
}

/// Whether a taker is that of an order.
spec fn is_taker(
    taker: Taker,
    ctx: OrderContext,
    side: Side,
    limit: Option<u64>,
    by_quantity: bool,
    by_trade: bool,
    kinds: Kinds,
) -> bool {
    &&& taker.kinds() == kinds
    &&& taker.market == ctx.market_key
    &&& taker.user == ctx.user
    &&& taker.side == side
    &&& taker.now == ctx.now
    &&& taker.factor == units_of(ctx.market.mkt_decimals)
    &&& taker.taker_fee == ctx.market.taker_fee
    &&& taker.limit == limit
    &&& taker.by_quantity == by_quantity
    &&& taker.pays_by_fill == by_trade
    &&& !taker.preview
}

/// Whether the steps are those of a limit order.
spec fn are_steps(ledger: Ledger, ctx: OrderContext, side: Side, order: LimitOrder, new_log: (Pubkey, nat), st: Steps) -> bool {
    let tally = st.walked.tally;
    let posting = order.post && tally.filled < order.quantity;
    let factor = units_of(ctx.market.mkt_decimals);
    &&& readies(ledger, ctx, order.rollover, new_log, st.desk)
    &&& crate::order_rules::expiry_of(ctx.market, order.expires, ctx.now) == Ok::<i64, ErrorCode>(st.expiry)
    &&& is_taker(st.taker, ctx, side, Some(order.price), true, false, limit_kinds(side))
    &&& st.brings == match side {
        Side::Bid => (order.quantity as int * order.price as int) / factor,
        Side::Ask => order.quantity as int,
    }
    &&& st.opened == (Ledger { state: st.opened.state, ..st.desk.ledger })
    &&& st.opened.state == (MarketState {
        action_counter: st.opened.state.action_counter,
        mkt_vault_balance: st.opened.state.mkt_vault_balance,
        mkt_order_balance: st.opened.state.mkt_order_balance,
        prc_vault_balance: st.opened.state.prc_vault_balance,
        prc_order_balance: st.opened.state.prc_order_balance,
        ..st.desk.ledger.state
    })
    &&& st.desk.ledger.state.moved_by(
        st.opened.state,
        Moves {
            mkt_vault: match side {
                Side::Bid => 0,
                Side::Ask => st.brings as int,
            },
            mkt_order: match side {
                Side::Bid => 0,
                Side::Ask => st.brings as int,
            },
            mkt_log: 0,
            prc_vault: match side {
                Side::Bid => st.brings as int,
                Side::Ask => 0,
            },
            prc_order: match side {
                Side::Bid => st.brings as int,
                Side::Ask => 0,
            },
            prc_log: 0,
            prc_fees: 0,
            deposit: 0,
            bids: 0,
            asks: 0,
            orders: 0,
            actions: 1,
        },
    )
    &&& st.opened.matched(st.taker, order.quantity) == Ok::<Walked, ErrorCode>(st.walked)
    &&& crate::order_rules::cleared(st.walked.ledger, st.taker, st.walked.expired) == Ok::<
        Ledger,
        ErrorCode,
    >(st.swept)
    &&& st.opened.has_traded(st.taker, order.quantity, st.walked.ledger, tally)
    &&& st.walked.ledger.has_swept(
        st.swept,
        ctx.market_key,
        side.spec_opposite(),
        factor,
        ctx.now,
    )
    &&& crate::refunds::expiries_since(st.walked.ledger.events, st.swept.events).len() <= 10
    &&& crate::trades::trades_since(st.walked.ledger.events, st.swept.events).len() == 0
    &&& st.swept.bid_slots == ledger.bid_slots
    &&& st.swept.ask_slots == ledger.ask_slots
    &&& tally.filled <= order.quantity
    &&& order.fill && !order.post ==> tally.filled == order.quantity
    &&& posting ==> st.swept.puts_up(
        st.rest.ledger,
        st.taker,
        order.price,
        Order { amount: (order.quantity - tally.filled) as u64, expiry: st.expiry },
        st.key,
        st.out,
    )
    &&& !posting ==> st.rest.ledger == st.swept && st.out is None && st.rest.order_id == 0
    &&& posting ==> st.rest.order_id == st.key
    &&& st.rest.posted_quantity == if posting {
        order.quantity - tally.filled
    } else {
        0
    }
    &&& st.rest.paid == tally.paid + match side {
        Side::Bid => (st.rest.posted_quantity as int * order.price as int) / factor,
        Side::Ask => 0,
    }
}

/// What is left of a limit order is posted if the order says so.
#[verifier::rlimit(40)]
proof fn lemma_rest(swept: Ledger, taker: Taker, order: LimitOrder, expiry: i64, tally: Tally) -> (r: (
    u128,
    Option<u128>,
))
    requires
        !order.preview,
        taker.factor > 0,
        swept.numbered(),
        swept.along(taker.side).dom().finite(),
        swept.bid_slots >= 1,
        swept.ask_slots >= 1,
        swept.has_logs(),
        order.post ==> swept.state.order_counter < u64::MAX,
        crate::order_rules::limit_rest(swept, taker, order, expiry, tally) is Ok,
    ensures
        ({
            let rest = crate::order_rules::limit_rest(swept, taker, order, expiry, tally)->Ok_0;
            let posting = order.post && tally.filled < order.quantity;
            let (key, out) = r;
            &&& tally.filled <= order.quantity
            &&& order.fill && !order.post ==> tally.filled == order.quantity
            &&& posting ==> swept.puts_up(
                rest.ledger,
                taker,
                order.price,
                Order { amount: (order.quantity - tally.filled) as u64, expiry },
                key,
                out,
            )
            &&& !posting ==> rest.ledger == swept && out is None && rest.order_id == 0
            &&& posting ==> rest.order_id == key
            &&& rest.posted_quantity == if posting {
                order.quantity - tally.filled
            } else {
                0
            }
            &&& rest.paid == tally.paid + match taker.side {
                Side::Bid => (rest.posted_quantity as int * order.price as int) / taker.factor as int,
                Side::Ask => 0,
            }
        }),
{
    reveal(crate::order_rules::limit_rest);
    let posting = order.post && tally.filled < order.quantity;
    assert(0int * (order.price as int) / (taker.factor as int) == 0) by (nonlinear_arith)
        requires
            taker.factor > 0,
    ;
    if posting {
        swept.lemma_puts_up(
            taker,
            order.price,
            Order { amount: (order.quantity - tally.filled) as u64, expiry },
        )
    } else {
        (0, None)
    }
}

#[verifier::rlimit(80)]
proof fn lemma_limit_steps(ledger: Ledger, ctx: OrderContext, side: Side, order: LimitOrder, new_log: (Pubkey, nat)) -> (st: Steps)
    requires
        ledger.has_books(),
        ledger.has_logs(),
        ctx.market.mkt_decimals <= 19,
        !order.preview,
        order.post ==> ledger.state.order_counter < u64::MAX,
        crate::order_rules::limit(ledger, ctx, side, order, new_log) is Ok,
    ensures
        are_steps(ledger, ctx, side, order, new_log, st),
        ({
            let last = st.desk.with_ledger(st.rest.ledger);
            crate::order_rules::limit(ledger, ctx, side, order, new_log) == match side {
                Side::Bid => crate::order_rules::bid_closed(
                    last,
                    ctx,
                    order,
                    st.expiry,
                    st.brings,
                    st.walked.tally,
                    st.rest,
                ),
                Side::Ask => crate::order_rules::ask_closed(
                    last,
                    ctx,
                    order,
                    st.expiry,
                    st.walked.tally,
                    st.rest,
                ),
            }
        }),
{
    let desk = crate::order_rules::readied(
        Desk { ledger, purse: ctx.purse, new_log: None },
        ctx,
        order.rollover,
        new_log,
    )->Ok_0;
    lemma_readies(ledger, ctx, order.rollover, new_log);
    lemma_units(ctx.market.mkt_decimals);
    let expiry = crate::order_rules::expiry_of(ctx.market, order.expires, ctx.now)->Ok_0;
    let taker = crate::order_rules::limit_taker(ctx, side, order);
    assert(is_taker(taker, ctx, side, Some(order.price), true, false, limit_kinds(side))) by {
        reveal(crate::order_rules::limit_taker);
    }
    let brings = crate::order_rules::brought(side, order, taker.factor)->Ok_0;
    let opened = crate::order_rules::limit_opened(desk.ledger, ctx, side, order, brings)->Ok_0;
    assert(opened == (Ledger { state: opened.state, ..desk.ledger })) by {
        reveal(crate::order_rules::limit_opened);
    }
    let moves = Moves {
        mkt_vault: match side {
            Side::Bid => 0,
            Side::Ask => brings as int,
        },
        mkt_order: match side {
            Side::Bid => 0,
            Side::Ask => brings as int,
        },
        mkt_log: 0,
        prc_vault: match side {
            Side::Bid => brings as int,
            Side::Ask => 0,
        },
        prc_order: match side {
            Side::Bid => brings as int,
            Side::Ask => 0,
        },
        prc_log: 0,
        prc_fees: 0,
        deposit: 0,
        bids: 0,
        asks: 0,
        orders: 0,
        actions: 1,
    };
    assert(desk.ledger.state.moved_by(opened.state, moves) && opened.state == (MarketState {
        action_counter: opened.state.action_counter,
        mkt_vault_balance: opened.state.mkt_vault_balance,
        mkt_order_balance: opened.state.mkt_order_balance,
        prc_vault_balance: opened.state.prc_vault_balance,
        prc_order_balance: opened.state.prc_order_balance,
        ..desk.ledger.state
    })) by {
        reveal(crate::order_rules::limit_opened);
    }
    assert(opened.numbered()) by {
        assert forall|s: Side, k: u128| #[trigger] opened.side(s).contains_key(
            k,
        ) implies crate::ledger::key_number(s, k) < opened.state.order_counter by {
            assert(ledger.side(s).contains_key(k));
        }
    }
    let walked = opened.matched(taker, order.quantity)->Ok_0;
    let swept = crate::order_rules::cleared(walked.ledger, taker, walked.expired)->Ok_0;
    opened.lemma_match_and_sweep(taker, order.quantity);
    opened.lemma_matched_within(taker, order.quantity);
    assert(walked.ledger.within(swept)) by {
        reveal(crate::order_rules::cleared);
        walked.ledger.lemma_swept_within(taker, walked.expired, 0);
    }
    opened.lemma_within_trans(walked.ledger, swept);
    opened.lemma_within_numbered(swept);
    assert(swept.along(side) == opened.along(side)) by {
        assert(opened.yields(
            walked.ledger,
            side,
            crate::trades::trades_since(opened.events, walked.ledger.events),
        ));
        assert(swept.across(side.spec_opposite()) == walked.ledger.across(side.spec_opposite()));
    }
    let rest = crate::order_rules::limit_rest(swept, taker, order, expiry, walked.tally)->Ok_0;
    let (key, out) = lemma_rest(swept, taker, order, expiry, walked.tally);
    Steps { desk, expiry, taker, brings, opened, walked, swept, rest, key, out }
}

impl Ledger {
    /// Whether a trade with posted orders is reported after matching and sweeping.
    proof fn lemma_told(self, walked: Ledger, swept: Ledger, rest: Ledger, last: Ledger)
        requires
            goes_on(self.events, walked.events),
            crate::refunds::expiries_since(self.events, walked.events).len() == 0,
            goes_on(walked.events, swept.events),
            crate::trades::trades_since(walked.events, swept.events).len() == 0,
            rest.events == swept.events || rest.events == swept.events.push(rest.events.last())
                && rest.events.last() is Settle,
            last.events == rest.events.push(last.events.last()),
            last.events.last() is Order,
        ensures
            crate::trades::trades_since(self.events, last.events) == crate::trades::trades_since(self.events, walked.events),
            crate::refunds::expiries_since(self.events, last.events) == crate::refunds::expiries_since(walked.events, swept.events),
            goes_on(self.events, last.events),
    {
        lemma_since(self.events, walked.events, swept.events);
        assert(crate::trades::trades_since(self.events, walked.events) + crate::trades::trades_since(walked.events, swept.events)
            =~= crate::trades::trades_since(self.events, walked.events));
        assert(crate::refunds::expiries_since(self.events, walked.events) + crate::refunds::expiries_since(walked.events, swept.events)
            =~= crate::refunds::expiries_since(walked.events, swept.events));
        if rest.events != swept.events {
            lemma_since_push(self.events, swept.events, rest.events.last());
        }
        lemma_since_push(self.events, rest.events, last.events.last());
        assert forall|k: int| 0 <= k < self.events.len() implies #[trigger] last.events[k]
            == self.events[k] by {
            assert(walked.events[k] == self.events[k]);
            assert(swept.events[k] == walked.events[k]);
        }
    }
}

/// Trades within a limit come to no more than the limit for a bid, and to no less for an ask, but
/// for less than one pricing token on each of them.
proof fn lemma_within_limit(trades: Seq<MatchEvent>, factor: int, limit: u64)
    requires
        factor > 0,
    ensures
        (forall|k: int| 0 <= k < trades.len() ==> (#[trigger] trades[k]).price <= limit) ==> crate::trades::pricing_tokens(
            trades,
            factor,
            None,
        ) * factor <= crate::trades::market_tokens(trades) * limit,
        (forall|k: int| 0 <= k < trades.len() ==> (#[trigger] trades[k]).price >= limit) ==> (
        crate::trades::pricing_tokens(trades, factor, None) + trades.len()) * factor >= crate::trades::market_tokens(trades) * limit,
        crate::trades::market_tokens(trades) >= 0,
        crate::trades::pricing_tokens(trades, factor, None) >= 0,
    decreases trades.len(),
{
    if trades.len() == 0 {
        assert(0 * factor == 0 && 0 * (limit as int) == 0) by (nonlinear_arith);
    } else {
        let less = trades.drop_last();
        let n = trades.len() as int;
        lemma_within_limit(less, factor, limit);
        let t = trades.last();
        assert(t == trades[n - 1]);
        let a = t.amount as int;
        let p = t.price as int;
        let l = limit as int;
        let c = (a * p) / factor;
        assert(c * factor <= a * p && a * p < (c + 1) * factor && c >= 0) by (nonlinear_arith)
            requires
                factor > 0,
                a >= 0,
                p >= 0,
                c == (a * p) / factor,
        ;
        let x = crate::trades::pricing_tokens(less, factor, None);
        let m = crate::trades::market_tokens(less);
        if forall|k: int| 0 <= k < trades.len() ==> (#[trigger] trades[k]).price <= limit {
            assert forall|k: int| 0 <= k < less.len() implies (#[trigger] less[k]).price <= limit by {
                assert(less[k] == trades[k]);
            }
            assert((x + c) * factor <= (m + a) * l) by (nonlinear_arith)
                requires
                    x * factor <= m * l,
                    c * factor <= a * p,
                    p <= l,
                    a >= 0,
            ;
        }
        if forall|k: int| 0 <= k < trades.len() ==> (#[trigger] trades[k]).price >= limit {
            assert forall|k: int| 0 <= k < less.len() implies (#[trigger] less[k]).price >= limit by {
                assert(less[k] == trades[k]);
            }
            assert((x + c + n) * factor >= (m + a) * l) by (nonlinear_arith)
                requires
                    (x + (n - 1)) * factor >= m * l,
                    (c + 1) * factor >= a * p,
                    p >= l,
                    a >= 0,
            ;
        }
    }
}

/// Trades of nothing cost nothing.
proof fn lemma_no_tokens(trades: Seq<MatchEvent>, factor: int, rate: u32)
    requires
        factor > 0,
    ensures
        crate::trades::market_tokens(trades) >= 0,
        crate::trades::market_tokens(trades) == 0 ==> crate::trades::pricing_tokens(trades, factor, None) == 0 && crate::trades::fees(
            trades,
            factor,
            None,
            rate,
        ) == 0,
    decreases trades.len(),
{
    if trades.len() > 0 {
        lemma_no_tokens(trades.drop_last(), factor, rate);
        let p = trades.last().price as int;
        assert((0 * p) / factor == 0 && (0 * (rate as int)) / 10000000 == 0) by (nonlinear_arith)
            requires
                factor > 0,
        ;
    }
}

impl Placed {
    /// The trades that an order has made.
    pub open spec fn trades(self, ledger: Ledger) -> Seq<MatchEvent> {
        crate::trades::trades_since(ledger.events, self.desk.ledger.events)
    }

    /// The expired orders that were removed in its course.
    pub open spec fn expiries(self, ledger: Ledger) -> Seq<ExpireEvent> {
        crate::refunds::expiries_since(ledger.events, self.desk.ledger.events)
    }
}

/// Whether a ledger holds books, of at least one order a side, and logs.
pub open spec fn is_sound(ledger: Ledger) -> bool {
    ledger.has_books() && ledger.has_logs()
}

#[verifier::rlimit(80)]
proof fn lemma_limit_told(ledger: Ledger, ctx: OrderContext, side: Side, order: LimitOrder, new_log: (Pubkey, nat)) -> (st: Steps)
    requires
        is_sound(ledger),
        ctx.market.mkt_decimals <= 19,
        !order.preview,
        order.post ==> ledger.state.order_counter < u64::MAX,
        crate::order_rules::limit(ledger, ctx, side, order, new_log) is Ok,
    ensures
        are_steps(ledger, ctx, side, order, new_log, st),
        ({
            let p = crate::order_rules::limit(ledger, ctx, side, order, new_log)->Ok_0;
            &&& p.trades(ledger) == crate::trades::trades_since(st.opened.events, st.walked.ledger.events)
            &&& p.expiries(ledger) == crate::refunds::expiries_since(st.walked.ledger.events, st.swept.events)
            &&& st.opened.events == ledger.events
            &&& st.opened.bids == ledger.bids
            &&& st.opened.asks == ledger.asks
            &&& st.opened.trades == ledger.trades
            &&& st.opened.log_a == ledger.log_a
            &&& st.opened.log_b.entries == ledger.log_b.entries
            &&& st.swept.along(side) == ledger.along(side)
            &&& st.swept.bid_slots == ledger.bid_slots
            &&& st.swept.ask_slots == ledger.ask_slots
            &&& goes_on(ledger.events, p.desk.ledger.events)
            &&& st.taker.factor > 0
        }),
        ({
            let p = crate::order_rules::limit(ledger, ctx, side, order, new_log)->Ok_0;
            let last = st.desk.with_ledger(st.rest.ledger);
            match side {
                Side::Bid => crate::order_rules::bid_closed(
                    last,
                    ctx,
                    order,
                    st.expiry,
                    st.brings,
                    st.walked.tally,
                    st.rest,
                ) == Ok::<Placed, ErrorCode>(p),
                Side::Ask => crate::order_rules::ask_closed(
                    last,
                    ctx,
                    order,
                    st.expiry,
                    st.walked.tally,
                    st.rest,
                ) == Ok::<Placed, ErrorCode>(p) && (st.walked.tally.filled == 0
                    ==> st.walked.tally.paid == 0 && st.walked.tally.fee == 0),
            }
        }),
{
    let st = lemma_limit_steps(ledger, ctx, side, order, new_log);
    lemma_units(ctx.market.mkt_decimals);
    let p = crate::order_rules::limit(ledger, ctx, side, order, new_log)->Ok_0;
    let last = st.desk.with_ledger(st.rest.ledger);
    let trades = crate::trades::trades_since(st.opened.events, st.walked.ledger.events);
    assert(st.opened.tells(
        st.walked.ledger,
        ctx.market_key,
        side,
        st.taker.factor as int,
        None,
        trades,
    ));
    st.opened.lemma_matching_tells(
        st.walked.ledger,
        ctx.market_key,
        side,
        st.taker.factor as int,
        None,
        trades,
    );
    lemma_no_tokens(trades, st.taker.factor as int, st.taker.taker_fee);
    match side {
        Side::Bid => {
            lemma_bid_closes(last, ctx, order, st.expiry, st.brings, st.walked.tally, st.rest);
        },
        Side::Ask => {
            lemma_ask_closes(last, ctx, order, st.expiry, st.walked.tally, st.rest);
        },
    }
    assert(goes_on(st.walked.ledger.events, st.swept.events));
    st.opened.lemma_told(st.walked.ledger, st.swept, st.rest.ledger, p.desk.ledger);
    assert(st.opened.yields(st.walked.ledger, side, trades));
    assert(st.swept.across(side.spec_opposite()) == st.walked.ledger.across(side.spec_opposite()));
    st
}

/// Every trade of a limit order is with an order of someone else that has not expired, at the price
/// of that order, which is no higher than the limit of a bid and no lower than that of an ask. So
/// a bid pays no more than its limit for what it gets, and an ask gets no less for what it gives,
/// but for less than one pricing token on each trade. The trades are numbered and logged.
#[verifier::rlimit(60)]
pub proof fn law_limit_trades(ledger: Ledger, ctx: OrderContext, side: Side, order: LimitOrder, new_log: (Pubkey, nat))
    requires
        is_sound(ledger),
        ctx.market.mkt_decimals <= 19,
        !order.preview,
        order.post ==> ledger.state.order_counter < u64::MAX,
    ensures
        crate::order_rules::limit(ledger, ctx, side, order, new_log) matches Ok(p) ==> {
            let trades = p.trades(ledger);
            let factor = units_of(ctx.market.mkt_decimals);
            let state = p.desk.ledger.state;
            &&& forall|k: int|
                0 <= k < trades.len() ==> ledger.can_trade(
                    ctx.market_key,
                    ctx.user,
                    side,
                    Some(order.price),
                    ledger.state.action_counter + 1,
                    ctx.now,
                    #[trigger] trades[k],
                )
            &&& ledger.numbers(trades)
            &&& crate::trades::fill_in_turn(trades, factor, order.quantity, true, limit_kinds(side))
            &&& ledger.keeps_trades(p.desk.ledger, trades)
            &&& crate::trades::market_tokens(trades) <= order.quantity
            &&& side == Side::Bid ==> crate::trades::pricing_tokens(trades, factor, None) * factor <= crate::trades::market_tokens(trades)
                * order.price
            &&& side == Side::Ask ==> (crate::trades::pricing_tokens(trades, factor, None) + trades.len()) * factor
                >= crate::trades::market_tokens(trades) * order.price
            &&& trades.len() == 0 ==> state.last_price == ledger.state.last_price && state.last_ts
                == ledger.state.last_ts
            &&& trades.len() > 0 ==> state.last_price == trades.last().price && state.last_ts == ctx.now
        },
{
    if crate::order_rules::limit(ledger, ctx, side, order, new_log) is Ok {
        let st = lemma_limit_told(ledger, ctx, side, order, new_log);
        let p = crate::order_rules::limit(ledger, ctx, side, order, new_log)->Ok_0;
        let last = st.desk.with_ledger(st.rest.ledger);
        let trades = p.trades(ledger);
        let factor = units_of(ctx.market.mkt_decimals);
        lemma_within_limit(trades, factor, order.price);
        match side {
            Side::Bid => {
                lemma_bid_closes(last, ctx, order, st.expiry, st.brings, st.walked.tally, st.rest);
            },
            Side::Ask => {
                lemma_ask_closes(last, ctx, order, st.expiry, st.walked.tally, st.rest);
            },
        }
        assert(ledger.across(side) == st.opened.across(side));
        assert forall|k: int| 0 <= k < trades.len() implies ledger.can_trade(
            ctx.market_key,
            ctx.user,
            side,
            Some(order.price),
            ledger.state.action_counter + 1,
            ctx.now,
            #[trigger] trades[k],
        ) by {
            assert(st.opened.can_trade(
                st.taker.market,
                st.taker.user,
                st.taker.side,
                st.taker.limit,
                st.opened.state.action_counter as int,
                st.taker.now,
                trades[k],
            ));
        }
        if trades.len() > 0 {
            assert(trades.last() == trades[trades.len() - 1]);
        }
        assert(st.opened.numbers(trades));
        assert(st.opened.keeps_trades(st.walked.ledger, trades));
    }
}

/// Whether the orders on the other side are those that were there, less what the trades have taken
/// from them, and without the expired ones that were removed.
pub open spec fn left_across(ledger: Ledger, after: Ledger, side: Side, trades: Seq<MatchEvent>, gone: Seq<ExpireEvent>) -> bool {
    let was = ledger.across(side);
    let left = after.across(side);
    &&& forall|key: u128| #[trigger]
        left.contains_key(key) <==> {
            &&& was.contains_key(key)
            &&& forall|k: int|
                0 <= k < trades.len() && (#[trigger] trades[k]).maker_order_id == key
                    ==> !trades[k].maker_filled
            &&& forall|k: int| 0 <= k < gone.len() ==> (#[trigger] gone[k]).order_id != key
        }
    &&& forall|key: u128| #[trigger]
        left.contains_key(key) && (forall|k: int|
            0 <= k < trades.len() ==> (#[trigger] trades[k]).maker_order_id != key) ==> left[key] == was[key]
    &&& forall|k: int|
        0 <= k < trades.len() && !(#[trigger] trades[k]).maker_filled ==> {
            let key = trades[k].maker_order_id;
            &&& left.contains_key(key)
            &&& left[key].owner == was[key].owner
            &&& left[key].value.expiry == was[key].value.expiry
            &&& left[key].value.amount == was[key].value.amount - trades[k].amount
        }
}

/// Whether what is posted of a limit order is in the book, under its price and the next number, with
/// its user, what is left of it and the time that was asked for; `out` has made room for it.
pub open spec fn puts_down(
    ledger: Ledger,
    after: Ledger,
    ctx: OrderContext,
    side: Side,
    order: LimitOrder,
    placed: Placed,
    out: Option<u128>,
) -> bool {
    let r = placed.result;
    let posting = r.posted_quantity > 0;
    &&& ledger.makes_room(side, order.price, posting, out)
    &&& !posting ==> after.along(side) == ledger.along(side) && r.order_id == 0
    &&& posting ==> {
        &&& crate::refunds::is_key_of(r.order_id, side, order.price, ledger.state.order_counter)
        &&& !ledger.along(side).contains_key(r.order_id)
        &&& after.along(side) == ledger.remaining(side, out).insert(
            r.order_id,
            Kept {
                owner: ctx.user,
                value: Order {
                    amount: r.posted_quantity,
                    expiry: if ctx.market.expire_enable {
                        order.expires
                    } else {
                        0
                    },
                },
            },
        )
    }
}

/// Whether expired orders were on the other side and past their time, and are no more than ten.
pub open spec fn all_were_late(ledger: Ledger, side: Side, now: i64, gone: Seq<ExpireEvent>) -> bool {
    &&& gone.len() <= 10
    &&& forall|k: int|
        0 <= k < gone.len() ==> {
            let key = (#[trigger] gone[k]).order_id;
            &&& ledger.across(side).contains_key(key)
            &&& ledger.across(side)[key].value.expiry != 0
            &&& ledger.across(side)[key].value.expiry <= now
        }
}

#[verifier::rlimit(60)]
proof fn lemma_left_across(
    ledger: Ledger,
    opened: Ledger,
    walked: Ledger,
    swept: Ledger,
    after: Ledger,
    side: Side,
    market: Pubkey,
    factor: int,
    now: i64,
)
    requires
        ledger.across(side) == opened.across(side),
        opened.yields(walked, side, crate::trades::trades_since(opened.events, walked.events)),
        forall|k: int|
            0 <= k < crate::trades::trades_since(opened.events, walked.events).len() ==> {
                let key = (#[trigger] crate::trades::trades_since(opened.events, walked.events)[k]).maker_order_id;
                &&& opened.across(side).contains_key(key)
                &&& opened.across(side)[key].value.expiry == 0 || opened.across(side)[key].value.expiry > now
            },
        walked.has_swept(swept, market, side.spec_opposite(), factor, now),
        crate::refunds::expiries_since(walked.events, swept.events).len() <= 10,
        after.across(side) == swept.across(side),
    ensures
        left_across(
            ledger,
            after,
            side,
            crate::trades::trades_since(opened.events, walked.events),
            crate::refunds::expiries_since(walked.events, swept.events),
        ),
        all_were_late(ledger, side, now, crate::refunds::expiries_since(walked.events, swept.events)),
{
    let trades = crate::trades::trades_since(opened.events, walked.events);
    let gone = crate::refunds::expiries_since(walked.events, swept.events);
    let other = side.spec_opposite();
    assert(walked.along(other) == walked.across(side));
    assert(swept.along(other) == swept.across(side));
    assert(ledger.along(other) == ledger.across(side));
    let was = ledger.across(side);
    let left = after.across(side);
    assert forall|k: int| 0 <= k < gone.len() implies ledger.is_late(
        other,
        (#[trigger] gone[k]).order_id,
        now,
    ) by {
        assert(walked.had_expired(market, other, factor, now, gone[k]));
        let key = gone[k].order_id;
        assert(walked.across(side).contains_key(key));
        if exists|j: int| 0 <= j < trades.len() && (#[trigger] trades[j]).maker_order_id == key {
            let j = choose|j: int| 0 <= j < trades.len() && (#[trigger] trades[j]).maker_order_id == key;
            assert(trades[j].maker_order_id == key);
        }
    }
    assert forall|key: u128| #[trigger]
        left.contains_key(key) <==> {
            &&& was.contains_key(key)
            &&& forall|k: int|
                0 <= k < trades.len() && (#[trigger] trades[k]).maker_order_id == key
                    ==> !trades[k].maker_filled
            &&& forall|k: int| 0 <= k < gone.len() ==> (#[trigger] gone[k]).order_id != key
        } by {
        assert(swept.along(other).contains_key(key) <==> left.contains_key(key));
        if left.contains_key(key) {
            assert(walked.across(side).contains_key(key));
            assert forall|k: int|
                0 <= k < trades.len() && (#[trigger] trades[k]).maker_order_id == key implies !trades[k].maker_filled by {}
        }
        if was.contains_key(key) && (forall|k: int|
            0 <= k < trades.len() && (#[trigger] trades[k]).maker_order_id == key
                ==> !trades[k].maker_filled) && forall|k: int|
            0 <= k < gone.len() ==> (#[trigger] gone[k]).order_id != key {
            if forall|k: int| 0 <= k < trades.len() ==> (#[trigger] trades[k]).maker_order_id != key {
                assert(opened.across(side).contains_key(key));
                assert(walked.across(side).contains_key(key));
            } else {
                let k = choose|k: int|
                    0 <= k < trades.len() && (#[trigger] trades[k]).maker_order_id == key;
                assert(trades[k].maker_order_id == key);
                assert(walked.across(side).contains_key(key));
            }
            assert(walked.along(other).contains_key(key));
            assert(swept.along(other).contains_key(key));
        }
    }
    assert forall|key: u128| #[trigger]
        left.contains_key(key) && (forall|k: int|
            0 <= k < trades.len() ==> (#[trigger] trades[k]).maker_order_id != key) implies left[key]
        == was[key] by {
        assert(swept.along(other).contains_key(key));
        assert(walked.across(side).contains_key(key));
        assert(swept.along(other)[key] == walked.along(other)[key]);
        assert(opened.across(side).contains_key(key));
    }
    assert forall|k: int| 0 <= k < trades.len() && !(#[trigger] trades[k]).maker_filled implies {
        let key = trades[k].maker_order_id;
        &&& left.contains_key(key)
        &&& left[key].owner == was[key].owner
        &&& left[key].value.expiry == was[key].value.expiry
        &&& left[key].value.amount == was[key].value.amount - trades[k].amount
    } by {
        let key = trades[k].maker_order_id;
        assert(walked.across(side).contains_key(key));
        assert forall|j: int| 0 <= j < gone.len() implies (#[trigger] gone[j]).order_id != key by {
            assert(ledger.is_late(other, gone[j].order_id, now));
        }
        assert(walked.along(other).contains_key(key));
        assert(swept.along(other).contains_key(key));
        assert(swept.along(other)[key] == walked.along(other)[key]);
    }
}

/// What a limit order gets, sends and pays as commission is what its trades and what is posted of it
/// come to: a bid gets the market tokens of its trades, and sends what the trades and the posted
/// rest cost and the commission; an ask sends the market tokens that it sells and posts, and gets
/// what the trades bring, less the commission. What is not filled is posted if the order says so.
#[verifier::rlimit(60)]
pub proof fn law_limit_result(ledger: Ledger, ctx: OrderContext, side: Side, order: LimitOrder, new_log: (Pubkey, nat))
    requires
        is_sound(ledger),
        ctx.market.mkt_decimals <= 19,
        !order.preview,
        order.post ==> ledger.state.order_counter < u64::MAX,
    ensures
        crate::order_rules::limit(ledger, ctx, side, order, new_log) matches Ok(p) ==> {
            let trades = p.trades(ledger);
            let factor = units_of(ctx.market.mkt_decimals);
            let cost = crate::trades::pricing_tokens(trades, factor, None);
            let fee = crate::trades::fees(trades, factor, None, ctx.market.taker_fee);
            let filled = crate::trades::market_tokens(trades);
            let r = p.result;
            &&& r.tokens_fee == fee
            &&& r.posted_quantity == if order.post {
                order.quantity - filled
            } else {
                0
            }
            &&& order.fill && !order.post ==> filled == order.quantity
            &&& side == Side::Bid ==> {
                &&& r.tokens_received == filled
                &&& r.tokens_sent == cost + (r.posted_quantity as int * order.price as int) / factor + fee
                &&& is_transfer(p.deposit, ctx.market.prc_mint_type, r.tokens_sent as int, false)
                &&& is_transfer(p.payout, ctx.market.mkt_mint_type, filled, filled == 0)
            }
            &&& side == Side::Ask ==> {
                &&& r.tokens_sent == filled + r.posted_quantity
                &&& r.tokens_received == cost - fee
                &&& is_transfer(p.deposit, ctx.market.mkt_mint_type, r.tokens_sent as int, false)
                &&& is_transfer(p.payout, ctx.market.prc_mint_type, cost - fee, filled == 0)
            }
        },
{
    if crate::order_rules::limit(ledger, ctx, side, order, new_log) is Ok {
        let st = lemma_limit_told(ledger, ctx, side, order, new_log);
        let p = crate::order_rules::limit(ledger, ctx, side, order, new_log)->Ok_0;
        let last = st.desk.with_ledger(st.rest.ledger);
        match side {
            Side::Bid => {
                lemma_bid_closes(last, ctx, order, st.expiry, st.brings, st.walked.tally, st.rest);
            },
            Side::Ask => {
                lemma_ask_closes(last, ctx, order, st.expiry, st.walked.tally, st.rest);
            },
        }
    }
}

/// A limit order is put down in the book if something is left of it and it says so: under its price
/// and the next number, with its user and what is left. On a full side the order that comes last,
/// of a worse price, leaves. On the other side each trade has taken its amount, expired orders are
/// removed, and all others stay as they were.
#[verifier::rlimit(100)]
pub proof fn law_limit_book(ledger: Ledger, ctx: OrderContext, side: Side, order: LimitOrder, new_log: (Pubkey, nat))
    requires
        is_sound(ledger),
        ctx.market.mkt_decimals <= 19,
        !order.preview,
        order.post ==> ledger.state.order_counter < u64::MAX,
    ensures
        crate::order_rules::limit(ledger, ctx, side, order, new_log) matches Ok(p) ==> {
            let after = p.desk.ledger;
            &&& exists|out: Option<u128>| #[trigger] puts_down(ledger, after, ctx, side, order, p, out)
            &&& left_across(ledger, after, side, p.trades(ledger), p.expiries(ledger))
            &&& all_were_late(ledger, side, ctx.now, p.expiries(ledger))
        },
{
    if crate::order_rules::limit(ledger, ctx, side, order, new_log) is Ok {
        let st = lemma_limit_told(ledger, ctx, side, order, new_log);
        let p = crate::order_rules::limit(ledger, ctx, side, order, new_log)->Ok_0;
        let last = st.desk.with_ledger(st.rest.ledger);
        match side {
            Side::Bid => {
                lemma_bid_closes(last, ctx, order, st.expiry, st.brings, st.walked.tally, st.rest);
            },
            Side::Ask => {
                lemma_ask_closes(last, ctx, order, st.expiry, st.walked.tally, st.rest);
            },
        }
        let posting = p.result.posted_quantity > 0;
        let after = p.desk.ledger;
        assert(ledger.makes_room(side, order.price, posting, st.out));
        assert(st.swept.state.order_counter == ledger.state.order_counter);
        assert(after.along(side) == st.rest.ledger.along(side));
        assert(after.across(side) == st.swept.across(side));
        assert(st.swept.remaining(side, st.out) == ledger.remaining(side, st.out));
        assert(st.expiry == if ctx.market.expire_enable {
            order.expires
        } else {
            0
        }) by {
            reveal(crate::order_rules::expiry_of);
        }
        assert(puts_down(ledger, after, ctx, side, order, p, st.out));
        lemma_left_across(
            ledger,
            st.opened,
            st.walked.ledger,
            st.swept,
            p.desk.ledger,
            side,
            ctx.market_key,
            units_of(ctx.market.mkt_decimals),
            ctx.now,
        );
    }
}

/// Whether the accounts in the settlement logs have changed by what the makers of the trades have
/// earned, what the removed orders held, and nothing else.
pub open spec fn accounts_gain(
    ledger: Ledger,
    after: Ledger,
    side: Side,
    factor: int,
    net: Option<u64>,
    trades: Seq<MatchEvent>,
    gone: Seq<ExpireEvent>,
    out: Option<u128>,
) -> bool {
    forall|id: u128, mkt_token: bool| #[trigger]
        crate::trades::held_in(after.log_a, after.log_b, id, mkt_token) == crate::trades::held_in(
            ledger.log_a,
            ledger.log_b,
            id,
            mkt_token,
        ) + if mkt_token == (side == Side::Ask) {
            crate::trades::earned(trades, factor, net, side, id) + ledger.value_out_to(side, factor, out, id)
        } else {
            crate::refunds::back_to(gone, id)
        }
}

/// Over both settlement logs the balance of each account rises by what its owner has earned as the
/// maker of trades, and by what the expired orders and the one that made room held for the owner.
/// No other account changes, that of the taker not either.
#[verifier::rlimit(100)]
pub proof fn law_limit_accounts(ledger: Ledger, ctx: OrderContext, side: Side, order: LimitOrder, new_log: (Pubkey, nat))
    requires
        is_sound(ledger),
        ctx.market.mkt_decimals <= 19,
        !order.preview,
        order.post ==> ledger.state.order_counter < u64::MAX,
    ensures
        crate::order_rules::limit(ledger, ctx, side, order, new_log) matches Ok(p) ==> {
            exists|out: Option<u128>|
                {
                    &&& #[trigger] puts_down(ledger, p.desk.ledger, ctx, side, order, p, out)
                    &&& accounts_gain(
                        ledger,
                        p.desk.ledger,
                        side,
                        units_of(ctx.market.mkt_decimals),
                        None,
                        p.trades(ledger),
                        p.expiries(ledger),
                        out,
                    )
                }
        },
{
    if crate::order_rules::limit(ledger, ctx, side, order, new_log) is Ok {
        let st = lemma_limit_told(ledger, ctx, side, order, new_log);
        let p = crate::order_rules::limit(ledger, ctx, side, order, new_log)->Ok_0;
        let last = st.desk.with_ledger(st.rest.ledger);
        match side {
            Side::Bid => {
                lemma_bid_closes(last, ctx, order, st.expiry, st.brings, st.walked.tally, st.rest);
            },
            Side::Ask => {
                lemma_ask_closes(last, ctx, order, st.expiry, st.walked.tally, st.rest);
            },
        }
        let after = p.desk.ledger;
        let posting = p.result.posted_quantity > 0;
        assert(st.swept.state.order_counter == ledger.state.order_counter);
        assert(after.along(side) == st.rest.ledger.along(side));
        assert(st.swept.remaining(side, st.out) == ledger.remaining(side, st.out));
        assert(st.expiry == if ctx.market.expire_enable {
            order.expires
        } else {
            0
        }) by {
            reveal(crate::order_rules::expiry_of);
        }
        assert(puts_down(ledger, after, ctx, side, order, p, st.out));
        let factor = units_of(ctx.market.mkt_decimals);
        let trades = p.trades(ledger);
        let gone = p.expiries(ledger);
        assert forall|id: u128, m: bool| #[trigger]
            crate::trades::held_in(after.log_a, after.log_b, id, m) == crate::trades::held_in(ledger.log_a, ledger.log_b, id, m) + if m
                == (side == Side::Ask) {
                crate::trades::earned(trades, factor, None, side, id) + ledger.value_out_to(side, factor, st.out, id)
            } else {
                crate::refunds::back_to(gone, id)
            } by {
            let w = st.walked.ledger;
            assert(crate::trades::held_in(w.log_a, w.log_b, id, m) == crate::trades::held_in(ledger.log_a, ledger.log_b, id, m)
                + if m == (side == Side::Ask) {
                crate::trades::earned(trades, factor, None, side, id)
            } else {
                0
            }) by {
                assert(st.opened.pays_makers(w, side, factor, None, trades));
                assert(crate::trades::held_in(st.opened.log_a, st.opened.log_b, id, m) == crate::trades::held_in(
                    ledger.log_a,
                    ledger.log_b,
                    id,
                    m,
                ));
            }
            assert(crate::trades::held_in(st.swept.log_a, st.swept.log_b, id, m) == crate::trades::held_in(w.log_a, w.log_b, id, m)
                + if m == (side == Side::Ask) {
                0
            } else {
                crate::refunds::back_to(gone, id)
            });
            assert(st.swept.value_out_to(side, factor, st.out, id) == ledger.value_out_to(
                side,
                factor,
                st.out,
                id,
            ));
            let r = st.rest.ledger;
            assert(crate::trades::held_in(r.log_a, r.log_b, id, m) == crate::trades::held_in(st.swept.log_a, st.swept.log_b, id, m)
                + if m == (side == Side::Ask) {
                ledger.value_out_to(side, factor, st.out, id)
            } else {
                0
            });
        }
        assert(accounts_gain(ledger, after, side, factor, None, trades, gone, st.out));
    }
}

/// How the totals change with a limit order: the vault by what comes in and goes out, the commission
/// by what is paid, the accounts by what the makers and the owners of removed orders get, and the
/// tokens of orders by what is posted and what is taken.
pub open spec fn limit_moves(ledger: Ledger, ctx: OrderContext, side: Side, order: LimitOrder, p: Placed, out: Option<u128>) -> Moves {
    let factor = units_of(ctx.market.mkt_decimals);
    let trades = p.trades(ledger);
    let gone = p.expiries(ledger);
    let filled = crate::trades::market_tokens(trades);
    let cost = crate::trades::pricing_tokens(trades, factor, None);
    let fee = crate::trades::fees(trades, factor, None, ctx.market.taker_fee);
    let posted = p.result.posted_quantity as int;
    let value = ledger.value_out(side, factor, out);
    let deposit = ctx.market.log_fee - if order.rollover {
        ctx.market.log_reimburse as int
    } else {
        0
    };
    let more = if posted > 0 && out is None {
        1int
    } else {
        0
    };
    let less = -crate::trades::used_up(trades) - gone.len();
    let orders = if posted > 0 {
        1int
    } else {
        0
    };
    match side {
        Side::Bid => Moves {
            mkt_vault: -filled,
            mkt_order: -filled - crate::refunds::tokens_back(gone),
            mkt_log: crate::refunds::tokens_back(gone),
            prc_vault: cost + (posted * order.price as int) / factor + fee,
            prc_order: (posted * order.price as int) / factor - value,
            prc_log: cost + value,
            prc_fees: fee,
            deposit,
            bids: more,
            asks: less,
            orders,
            actions: 1,
        },
        Side::Ask => Moves {
            mkt_vault: filled + posted,
            mkt_order: posted - value,
            mkt_log: filled + value,
            prc_vault: fee - cost,
            prc_order: -cost - crate::refunds::tokens_back(gone),
            prc_log: crate::refunds::tokens_back(gone),
            prc_fees: fee,
            deposit,
            bids: less,
            asks: more,
            orders,
            actions: 1,
        },
    }
}

/// The totals of the market change with a limit order as its trades, its posted rest and the removed
/// orders say.
#[verifier::rlimit(100)]
pub proof fn law_limit_totals(ledger: Ledger, ctx: OrderContext, side: Side, order: LimitOrder, new_log: (Pubkey, nat))
    requires
        is_sound(ledger),
        ctx.market.mkt_decimals <= 19,
        !order.preview,
        order.post ==> ledger.state.order_counter < u64::MAX,
    ensures
        crate::order_rules::limit(ledger, ctx, side, order, new_log) matches Ok(p) ==> {
            exists|out: Option<u128>|
                {
                    &&& #[trigger] puts_down(ledger, p.desk.ledger, ctx, side, order, p, out)
                    &&& ledger.state.moved_by(
                        p.desk.ledger.state,
                        limit_moves(ledger, ctx, side, order, p, out),
                    )
                }
        },
{
    if crate::order_rules::limit(ledger, ctx, side, order, new_log) is Ok {
        let st = lemma_limit_told(ledger, ctx, side, order, new_log);
        let p = crate::order_rules::limit(ledger, ctx, side, order, new_log)->Ok_0;
        let last = st.desk.with_ledger(st.rest.ledger);
        match side {
            Side::Bid => {
                lemma_bid_closes(last, ctx, order, st.expiry, st.brings, st.walked.tally, st.rest);
            },
            Side::Ask => {
                lemma_ask_closes(last, ctx, order, st.expiry, st.walked.tally, st.rest);
            },
        }
        let after = p.desk.ledger;
        let posting = p.result.posted_quantity > 0;
        assert(st.swept.state.order_counter == ledger.state.order_counter);
        assert(after.along(side) == st.rest.ledger.along(side));
        assert(st.swept.remaining(side, st.out) == ledger.remaining(side, st.out));
        assert(st.expiry == if ctx.market.expire_enable {
            order.expires
        } else {
            0
        }) by {
            reveal(crate::order_rules::expiry_of);
        }
        assert(puts_down(ledger, after, ctx, side, order, p, st.out));
        let factor = units_of(ctx.market.mkt_decimals);
        let trades = p.trades(ledger);
        let gone = p.expiries(ledger);
        let m = limit_moves(ledger, ctx, side, order, p, st.out);
        assert(st.opened.moves_totals(st.walked.ledger, side, false, factor, None, trades));
        assert(crate::refunds::gives_back(
            st.walked.ledger.state,
            st.swept.state,
            side.spec_opposite(),
            gone.len() as int,
            crate::refunds::tokens_back(gone),
        ));
        assert(st.swept.value_out(side, factor, st.out) == ledger.value_out(side, factor, st.out));
        assert(ledger.state.moved_by(after.state, m));
    }
}

/// The user of a limit order pays the fee for log space, and gets what is paid back for a new log if
/// the order brings one; that log is then the next one, and the one that was next is the active one.
/// The last thing that is reported is the order with what came of it.
#[verifier::rlimit(60)]
pub proof fn law_limit_lamports(ledger: Ledger, ctx: OrderContext, side: Side, order: LimitOrder, new_log: (Pubkey, nat))
    requires
        is_sound(ledger),
        ctx.market.mkt_decimals <= 19,
        !order.preview,
        order.post ==> ledger.state.order_counter < u64::MAX,
    ensures
        crate::order_rules::limit(ledger, ctx, side, order, new_log) matches Ok(p) ==> {
            let after = p.desk.ledger;
            let back = if order.rollover {
                ctx.market.log_reimburse as int
            } else {
                0
            };
            let report = after.events.last();
            &&& p.desk.purse.user_lamports == ctx.purse.user_lamports - ctx.market.log_fee + back
            &&& p.desk.purse.state_lamports == ctx.purse.state_lamports + ctx.market.log_fee - back
            &&& order.rollover ==> {
                &&& ledger.state.log_rollover
                &&& after.state.settle_a == ledger.log_b.key
                &&& after.state.settle_b == new_log.0
                &&& after.log_b.header.next == new_log.0
                &&& p.desk.new_log is Some
                &&& p.desk.new_log->Some_0.key == new_log.0
                &&& p.desk.new_log->Some_0.slots == new_log.1
                &&& p.desk.new_log->Some_0.header.market == ctx.market_key
                &&& p.desk.new_log->Some_0.header.prev == ledger.log_b.key
                &&& p.desk.new_log->Some_0.header.next == Pubkey::zero()
                &&& p.desk.new_log->Some_0.header.items == 0
                &&& p.desk.new_log->Some_0.entries.dom() == Set::<u128>::empty()
            }
            &&& !order.rollover ==> {
                &&& after.state.settle_a == ledger.state.settle_a
                &&& after.state.settle_b == ledger.state.settle_b
                &&& ledger.state.log_rollover ==> after.state.log_rollover
                &&& crate::trades::same_log(ledger.log_b, after.log_b)
                &&& p.desk.new_log is None
            }
            &&& crate::trades::same_log(ledger.log_a, after.log_a)
            &&& goes_on(ledger.events, after.events)
            &&& report->Order_0.event_type == match side {
                Side::Bid => 58862986463747312203336335289809479007u128,
                Side::Ask => 295320270387787716737004386297471454892u128,
            }
            &&& is_report(report, ctx, side, ledger.state.action_counter + 1, p)
            &&& report->Order_0.filled == (crate::trades::market_tokens(p.trades(ledger)) == order.quantity)
            &&& report->Order_0.order_price == order.price
            &&& report->Order_0.order_quantity == order.quantity
            &&& report->Order_0.expires == if ctx.market.expire_enable {
                order.expires
            } else {
                0
            }
        },
{
    if crate::order_rules::limit(ledger, ctx, side, order, new_log) is Ok {
        let st = lemma_limit_told(ledger, ctx, side, order, new_log);
        let p = crate::order_rules::limit(ledger, ctx, side, order, new_log)->Ok_0;
        let last = st.desk.with_ledger(st.rest.ledger);
        match side {
            Side::Bid => {
                lemma_bid_closes(last, ctx, order, st.expiry, st.brings, st.walked.tally, st.rest);
            },
            Side::Ask => {
                lemma_ask_closes(last, ctx, order, st.expiry, st.walked.tally, st.rest);
            },
        }
        reveal(crate::order_rules::expiry_of);
    }
}

impl MarketOrder {
    /// What an order for a net price may spend; an order for a quantity has no such bound.
    pub open spec fn net(self) -> Option<u64> {
        if self.by_quantity {
            None
        } else {
            Some(self.net_price)
        }
    }

    /// What is to be filled.
    spec fn to_fill(self) -> u64 {
        if self.by_quantity {
            self.quantity
        } else {
            self.net_price
        }
    }
}

#[verifier::rlimit(60)]
proof fn lemma_market_told(ledger: Ledger, ctx: OrderContext, side: Side, order: MarketOrder, new_log: (Pubkey, nat)) -> (r: (
    Desk,
    Taker,
    Ledger,
    Walked,
    Ledger,
))
    requires
        is_sound(ledger),
        ctx.market.mkt_decimals <= 19,
        !order.preview,
        crate::order_rules::market(ledger, ctx, side, order, new_log) is Ok,
    ensures
        ({
            let (desk, taker, opened, walked, swept) = r;
            let p = crate::order_rules::market(ledger, ctx, side, order, new_log)->Ok_0;
            let factor = units_of(ctx.market.mkt_decimals);
            &&& readies(ledger, ctx, order.rollover, new_log, desk)
            &&& is_taker(taker, ctx, side, None, order.by_quantity, true, market_kinds(side, order.by_quantity))
            &&& factor > 0
            &&& opened == (Ledger { state: opened.state, ..desk.ledger })
            &&& opened.state == (MarketState {
                action_counter: opened.state.action_counter,
                ..desk.ledger.state
            })
            &&& opened.state.action_counter == desk.ledger.state.action_counter + 1
            &&& opened.matched(taker, order.to_fill()) == Ok::<Walked, ErrorCode>(walked)
            &&& crate::order_rules::cleared(walked.ledger, taker, walked.expired) == Ok::<
                Ledger,
                ErrorCode,
            >(swept)
            &&& opened.has_traded(taker, order.to_fill(), walked.ledger, walked.tally)
            &&& walked.ledger.has_swept(swept, ctx.market_key, side.spec_opposite(), factor, ctx.now)
            &&& crate::refunds::expiries_since(walked.ledger.events, swept.events).len() <= 10
            &&& swept.along(side) == ledger.along(side)
            &&& order.fill ==> if order.by_quantity {
                walked.tally.filled == order.quantity
            } else {
                walked.tally.paid == order.net_price
            }
            &&& order.by_quantity ==> walked.tally.filled <= order.quantity
            &&& !order.by_quantity ==> walked.tally.paid <= order.net_price
            &&& p.trades(ledger) == crate::trades::trades_since(opened.events, walked.ledger.events)
            &&& p.expiries(ledger) == crate::refunds::expiries_since(walked.ledger.events, swept.events)
            &&& goes_on(ledger.events, p.desk.ledger.events)
            &&& match side {
                Side::Bid => crate::order_rules::market_bid_closed(
                    desk.with_ledger(swept),
                    ctx,
                    order,
                    walked.tally,
                ) == Ok::<Placed, ErrorCode>(p),
                Side::Ask => crate::order_rules::market_ask_closed(
                    desk.with_ledger(swept),
                    ctx,
                    order,
                    walked.tally,
                ) == Ok::<Placed, ErrorCode>(p),
            }
        }),
{
    let desk = crate::order_rules::readied(
        Desk { ledger, purse: ctx.purse, new_log: None },
        ctx,
        order.rollover,
        new_log,
    )->Ok_0;
    lemma_readies(ledger, ctx, order.rollover, new_log);
    lemma_units(ctx.market.mkt_decimals);
    let taker = crate::order_rules::market_taker(ctx, side, order);
    assert(is_taker(taker, ctx, side, None, order.by_quantity, true, market_kinds(side, order.by_quantity))) by {
        reveal(crate::order_rules::market_taker);
    }
    let opened = desk.ledger.with_state(crate::order_rules::next_action(desk.ledger.state)->Ok_0);
    let walked = opened.matched(taker, order.to_fill())->Ok_0;
    let swept = crate::order_rules::cleared(walked.ledger, taker, walked.expired)->Ok_0;
    let p = crate::order_rules::market(ledger, ctx, side, order, new_log)->Ok_0;
    assert(opened.side(side.spec_opposite()) == opened.across(side));
    opened.lemma_match_and_sweep(taker, order.to_fill());
    opened.law_order_within_its_terms(taker, order.to_fill());
    let trades = crate::trades::trades_since(opened.events, walked.ledger.events);
    let factor = taker.factor as int;
    let net = taker.net(order.to_fill());
    assert(opened.tells(walked.ledger, ctx.market_key, side, factor, net, trades));
    opened.lemma_matching_tells(walked.ledger, ctx.market_key, side, factor, net, trades);
    match side {
        Side::Bid => {
            lemma_market_bid_closes(desk.with_ledger(swept), ctx, order, walked.tally);
        },
        Side::Ask => {
            lemma_market_ask_closes(desk.with_ledger(swept), ctx, order, walked.tally);
        },
    }
    assert(goes_on(walked.ledger.events, swept.events));
    opened.lemma_told(walked.ledger, swept, swept, p.desk.ledger);
    assert(opened.yields(walked.ledger, side, trades));
    assert(swept.across(side.spec_opposite()) == walked.ledger.across(side.spec_opposite()));
    (desk, taker, opened, walked, swept)
}

/// Every trade of a market order is with an order of someone else that has not expired, at the price
/// of that order. An order takes no more than its quantity, or spends no more than its net price; one
/// that must be filled takes exactly its quantity, or spends exactly its net price. The trades are
/// numbered and logged.
#[verifier::rlimit(60)]
pub proof fn law_market_trades(ledger: Ledger, ctx: OrderContext, side: Side, order: MarketOrder, new_log: (Pubkey, nat))
    requires
        is_sound(ledger),
        ctx.market.mkt_decimals <= 19,
        !order.preview,
    ensures
        crate::order_rules::market(ledger, ctx, side, order, new_log) matches Ok(p) ==> {
            let trades = p.trades(ledger);
            let factor = units_of(ctx.market.mkt_decimals);
            let cost = crate::trades::pricing_tokens(trades, factor, order.net());
            let state = p.desk.ledger.state;
            &&& forall|k: int|
                0 <= k < trades.len() ==> ledger.can_trade(
                    ctx.market_key,
                    ctx.user,
                    side,
                    None,
                    ledger.state.action_counter + 1,
                    ctx.now,
                    #[trigger] trades[k],
                )
            &&& ledger.numbers(trades)
            &&& crate::trades::fill_in_turn(
                trades,
                factor,
                if order.by_quantity {
                    order.quantity
                } else {
                    order.net_price
                },
                order.by_quantity,
                market_kinds(side, order.by_quantity),
            )
            &&& ledger.keeps_trades(p.desk.ledger, trades)
            &&& order.by_quantity ==> crate::trades::market_tokens(trades) <= order.quantity
            &&& !order.by_quantity ==> cost <= order.net_price
            &&& order.fill && order.by_quantity ==> crate::trades::market_tokens(trades) == order.quantity
            &&& order.fill && !order.by_quantity ==> cost == order.net_price
            &&& trades.len() == 0 ==> state.last_price == ledger.state.last_price && state.last_ts
                == ledger.state.last_ts
            &&& trades.len() > 0 ==> state.last_price == trades.last().price && state.last_ts == ctx.now
        },
{
    if crate::order_rules::market(ledger, ctx, side, order, new_log) is Ok {
        let (desk, taker, opened, walked, swept) = lemma_market_told(ledger, ctx, side, order, new_log);
        let p = crate::order_rules::market(ledger, ctx, side, order, new_log)->Ok_0;
        let after = p.desk.ledger;
        match side {
            Side::Bid => {
                lemma_market_bid_closes(desk.with_ledger(swept), ctx, order, walked.tally);
            },
            Side::Ask => {
                lemma_market_ask_closes(desk.with_ledger(swept), ctx, order, walked.tally);
            },
        }
        let factor = units_of(ctx.market.mkt_decimals);
        let trades = p.trades(ledger);
        let gone = p.expiries(ledger);
        assert(ledger.across(side) == opened.across(side));
        assert forall|k: int| 0 <= k < trades.len() implies ledger.can_trade(
            ctx.market_key,
            ctx.user,
            side,
            None,
            ledger.state.action_counter + 1,
            ctx.now,
            #[trigger] trades[k],
        ) by {
            assert(opened.can_trade(
                taker.market,
                taker.user,
                taker.side,
                taker.limit,
                opened.state.action_counter as int,
                taker.now,
                trades[k],
            ));
        }
        if trades.len() > 0 {
            assert(trades.last() == trades[trades.len() - 1]);
        }
        assert(opened.numbers(trades));
        assert(opened.keeps_trades(walked.ledger, trades));
    }
}

/// What a market order gets, sends and pays as commission is what its trades come to: a bid gets the
/// market tokens of its trades, and sends what they cost and the commission; an ask sends the market
/// tokens, and gets what they bring, less the commission. Nothing is paid out where nothing was
/// filled, and nothing is posted.
#[verifier::rlimit(60)]
pub proof fn law_market_result(ledger: Ledger, ctx: OrderContext, side: Side, order: MarketOrder, new_log: (Pubkey, nat))
    requires
        is_sound(ledger),
        ctx.market.mkt_decimals <= 19,
        !order.preview,
    ensures
        crate::order_rules::market(ledger, ctx, side, order, new_log) matches Ok(p) ==> {
            let trades = p.trades(ledger);
            let factor = units_of(ctx.market.mkt_decimals);
            let cost = crate::trades::pricing_tokens(trades, factor, order.net());
            let fee = crate::trades::fees(trades, factor, order.net(), ctx.market.taker_fee);
            let filled = crate::trades::market_tokens(trades);
            let r = p.result;
            &&& r.tokens_fee == fee
            &&& r.posted_quantity == 0
            &&& r.order_id == 0
            &&& side == Side::Bid ==> {
                &&& r.tokens_received == filled
                &&& r.tokens_sent == cost + fee
                &&& is_transfer(p.deposit, ctx.market.prc_mint_type, cost + fee, false)
                &&& is_transfer(p.payout, ctx.market.mkt_mint_type, filled, filled == 0)
            }
            &&& side == Side::Ask ==> {
                &&& r.tokens_sent == filled
                &&& filled > 0 ==> r.tokens_received == cost - fee
                &&& filled == 0 ==> r.tokens_received == 0
                &&& is_transfer(p.deposit, ctx.market.mkt_mint_type, filled, false)
                &&& is_transfer(
                    p.payout,
                    ctx.market.prc_mint_type,
                    r.tokens_received as int,
                    filled == 0,
                )
            }
        },
{
    if crate::order_rules::market(ledger, ctx, side, order, new_log) is Ok {
        let (desk, taker, opened, walked, swept) = lemma_market_told(ledger, ctx, side, order, new_log);
        let p = crate::order_rules::market(ledger, ctx, side, order, new_log)->Ok_0;
        let after = p.desk.ledger;
        match side {
            Side::Bid => {
                lemma_market_bid_closes(desk.with_ledger(swept), ctx, order, walked.tally);
            },
            Side::Ask => {
                lemma_market_ask_closes(desk.with_ledger(swept), ctx, order, walked.tally);
            },
        }
        let factor = units_of(ctx.market.mkt_decimals);
        let trades = p.trades(ledger);
        let gone = p.expiries(ledger);
    }
}

/// A market order leaves its own side of the book as it is. On the other side each trade has taken
/// its amount, expired orders are removed, and all others stay as they were.
#[verifier::rlimit(60)]
pub proof fn law_market_book(ledger: Ledger, ctx: OrderContext, side: Side, order: MarketOrder, new_log: (Pubkey, nat))
    requires
        is_sound(ledger),
        ctx.market.mkt_decimals <= 19,
        !order.preview,
    ensures
        crate::order_rules::market(ledger, ctx, side, order, new_log) matches Ok(p) ==> {
            &&& p.desk.ledger.along(side) == ledger.along(side)
            &&& left_across(ledger, p.desk.ledger, side, p.trades(ledger), p.expiries(ledger))
            &&& all_were_late(ledger, side, ctx.now, p.expiries(ledger))
        },
{
    if crate::order_rules::market(ledger, ctx, side, order, new_log) is Ok {
        let (desk, taker, opened, walked, swept) = lemma_market_told(ledger, ctx, side, order, new_log);
        let p = crate::order_rules::market(ledger, ctx, side, order, new_log)->Ok_0;
        let after = p.desk.ledger;
        match side {
            Side::Bid => {
                lemma_market_bid_closes(desk.with_ledger(swept), ctx, order, walked.tally);
            },
            Side::Ask => {
                lemma_market_ask_closes(desk.with_ledger(swept), ctx, order, walked.tally);
            },
        }
        let factor = units_of(ctx.market.mkt_decimals);
        let trades = p.trades(ledger);
        let gone = p.expiries(ledger);
        assert(after.along(side) == swept.along(side));
        assert(after.across(side) == swept.across(side));
        lemma_left_across(
            ledger,
            opened,
            walked.ledger,
            swept,
            after,
            side,
            ctx.market_key,
            factor,
            ctx.now,
        );
    }
}

/// Over both settlement logs the balance of each account rises by what its owner has earned as the
/// maker of trades, and by what the owner's expired orders held. No other account changes, that of
/// the taker not either.
#[verifier::rlimit(60)]
pub proof fn law_market_accounts(ledger: Ledger, ctx: OrderContext, side: Side, order: MarketOrder, new_log: (Pubkey, nat))
    requires
        is_sound(ledger),
        ctx.market.mkt_decimals <= 19,
        !order.preview,
    ensures
        crate::order_rules::market(ledger, ctx, side, order, new_log) matches Ok(p) ==> {
            accounts_gain(
                ledger,
                p.desk.ledger,
                side,
                units_of(ctx.market.mkt_decimals),
                order.net(),
                p.trades(ledger),
                p.expiries(ledger),
                None,
            )
        },
{
    if crate::order_rules::market(ledger, ctx, side, order, new_log) is Ok {
        let (desk, taker, opened, walked, swept) = lemma_market_told(ledger, ctx, side, order, new_log);
        let p = crate::order_rules::market(ledger, ctx, side, order, new_log)->Ok_0;
        let after = p.desk.ledger;
        match side {
            Side::Bid => {
                lemma_market_bid_closes(desk.with_ledger(swept), ctx, order, walked.tally);
            },
            Side::Ask => {
                lemma_market_ask_closes(desk.with_ledger(swept), ctx, order, walked.tally);
            },
        }
        let factor = units_of(ctx.market.mkt_decimals);
        let trades = p.trades(ledger);
        let gone = p.expiries(ledger);
        assert forall|id: u128, m: bool| #[trigger]
            crate::trades::held_in(after.log_a, after.log_b, id, m) == crate::trades::held_in(ledger.log_a, ledger.log_b, id, m) + if m
                == (side == Side::Ask) {
                crate::trades::earned(trades, factor, order.net(), side, id) + ledger.value_out_to(
                    side,
                    factor,
                    None,
                    id,
                )
            } else {
                crate::refunds::back_to(gone, id)
            } by {
            let w = walked.ledger;
            assert(opened.pays_makers(w, side, factor, order.net(), trades));
            assert(crate::trades::held_in(opened.log_a, opened.log_b, id, m) == crate::trades::held_in(
                ledger.log_a,
                ledger.log_b,
                id,
                m,
            ));
            assert(crate::trades::held_in(w.log_a, w.log_b, id, m) == crate::trades::held_in(ledger.log_a, ledger.log_b, id, m)
                + if m == (side == Side::Ask) {
                crate::trades::earned(trades, factor, order.net(), side, id)
            } else {
                0
            });
            assert(crate::trades::held_in(swept.log_a, swept.log_b, id, m) == crate::trades::held_in(w.log_a, w.log_b, id, m) + if m
                == (side == Side::Ask) {
                0
            } else {
                crate::refunds::back_to(gone, id)
            });
        }
    }
}

/// How the totals change with a market order: the vault by what comes in and goes out, the commission
/// by what is paid, the accounts by what the makers and the owners of expired orders get, and the
/// tokens of orders by what is taken.
pub open spec fn market_moves(ledger: Ledger, ctx: OrderContext, side: Side, order: MarketOrder, p: Placed) -> Moves {
    let factor = units_of(ctx.market.mkt_decimals);
    let trades = p.trades(ledger);
    let gone = p.expiries(ledger);
    let filled = crate::trades::market_tokens(trades);
    let cost = crate::trades::pricing_tokens(trades, factor, order.net());
    let fee = crate::trades::fees(trades, factor, order.net(), ctx.market.taker_fee);
    let deposit = -if order.rollover {
        ctx.market.log_reimburse as int
    } else {
        0
    };
    let less = -crate::trades::used_up(trades) - gone.len();
    match side {
        Side::Bid => Moves {
            mkt_vault: -filled,
            mkt_order: -filled - crate::refunds::tokens_back(gone),
            mkt_log: crate::refunds::tokens_back(gone),
            prc_vault: cost + fee,
            prc_order: 0,
            prc_log: cost,
            prc_fees: fee,
            deposit,
            bids: 0,
            asks: less,
            orders: 0,
            actions: 1,
        },
        Side::Ask => {
            let paid = if filled == 0 {
                0
            } else {
                cost
            };
            let kept = if filled == 0 {
                0
            } else {
                fee
            };
            Moves {
                mkt_vault: filled,
                mkt_order: 0,
                mkt_log: filled,
                prc_vault: kept - paid,
                prc_order: -paid - crate::refunds::tokens_back(gone),
                prc_log: crate::refunds::tokens_back(gone),
                prc_fees: kept,
                deposit,
                bids: less,
                asks: 0,
                orders: 0,
                actions: 1,
            }
        },
    }
}

/// The totals of the market change with a market order as its trades and the expired orders say.
#[verifier::rlimit(60)]
pub proof fn law_market_totals(ledger: Ledger, ctx: OrderContext, side: Side, order: MarketOrder, new_log: (Pubkey, nat))
    requires
        is_sound(ledger),
        ctx.market.mkt_decimals <= 19,
        !order.preview,
    ensures
        crate::order_rules::market(ledger, ctx, side, order, new_log) matches Ok(p) ==> {
            ledger.state.moved_by(p.desk.ledger.state, market_moves(ledger, ctx, side, order, p))
        },
{
    if crate::order_rules::market(ledger, ctx, side, order, new_log) is Ok {
        let (desk, taker, opened, walked, swept) = lemma_market_told(ledger, ctx, side, order, new_log);
        let p = crate::order_rules::market(ledger, ctx, side, order, new_log)->Ok_0;
        let after = p.desk.ledger;
        match side {
            Side::Bid => {
                lemma_market_bid_closes(desk.with_ledger(swept), ctx, order, walked.tally);
            },
            Side::Ask => {
                lemma_market_ask_closes(desk.with_ledger(swept), ctx, order, walked.tally);
            },
        }
        let factor = units_of(ctx.market.mkt_decimals);
        let trades = p.trades(ledger);
        let gone = p.expiries(ledger);
        assert(opened.moves_totals(walked.ledger, side, true, factor, order.net(), trades));
        assert(crate::refunds::gives_back(
            walked.ledger.state,
            swept.state,
            side.spec_opposite(),
            gone.len() as int,
            crate::refunds::tokens_back(gone),
        ));
    }
}

/// The user of a market order pays no fee for log space, and gets what is paid back for a new log if
/// the order brings one; that log is then the next one, and the one that was next is the active one.
/// The last thing that is reported is the order with what came of it.
#[verifier::rlimit(60)]
pub proof fn law_market_lamports(ledger: Ledger, ctx: OrderContext, side: Side, order: MarketOrder, new_log: (Pubkey, nat))
    requires
        is_sound(ledger),
        ctx.market.mkt_decimals <= 19,
        !order.preview,
    ensures
        crate::order_rules::market(ledger, ctx, side, order, new_log) matches Ok(p) ==> {
            let after = p.desk.ledger;
            let back = if order.rollover {
                ctx.market.log_reimburse as int
            } else {
                0
            };
            let report = after.events.last();
            &&& p.desk.purse.user_lamports == ctx.purse.user_lamports + back
            &&& p.desk.purse.state_lamports == ctx.purse.state_lamports - back
            &&& order.rollover ==> {
                &&& ledger.state.log_rollover
                &&& after.state.settle_a == ledger.log_b.key
                &&& after.state.settle_b == new_log.0
                &&& after.log_b.header.next == new_log.0
                &&& p.desk.new_log is Some
                &&& p.desk.new_log->Some_0.key == new_log.0
                &&& p.desk.new_log->Some_0.slots == new_log.1
                &&& p.desk.new_log->Some_0.header.market == ctx.market_key
                &&& p.desk.new_log->Some_0.header.prev == ledger.log_b.key
                &&& p.desk.new_log->Some_0.header.next == Pubkey::zero()
                &&& p.desk.new_log->Some_0.header.items == 0
                &&& p.desk.new_log->Some_0.entries.dom() == Set::<u128>::empty()
            }
            &&& !order.rollover ==> {
                &&& after.state.settle_a == ledger.state.settle_a
                &&& after.state.settle_b == ledger.state.settle_b
                &&& ledger.state.log_rollover ==> after.state.log_rollover
                &&& crate::trades::same_log(ledger.log_b, after.log_b)
                &&& p.desk.new_log is None
            }
            &&& crate::trades::same_log(ledger.log_a, after.log_a)
            &&& goes_on(ledger.events, after.events)
            &&& report->Order_0.event_type == match side {
                Side::Bid => 151919600483167167737000078670308605753u128,
                Side::Ask => 116790064293172396704069821733243480358u128,
            }
            &&& is_report(report, ctx, side, ledger.state.action_counter + 1, p)
            &&& order.by_quantity ==> report->Order_0.filled == (crate::trades::market_tokens(p.trades(ledger))
                == order.quantity)
            &&& !order.by_quantity && side == Side::Bid ==> report->Order_0.filled == (
            p.result.tokens_sent == order.net_price)
            &&& !order.by_quantity && side == Side::Ask && p.result.tokens_sent > 0
                ==> report->Order_0.filled == (p.result.tokens_received == order.net_price)
            &&& report->Order_0.order_price == order.net_price
            &&& report->Order_0.order_quantity == order.quantity
            &&& report->Order_0.expires == 0
        },
{
    if crate::order_rules::market(ledger, ctx, side, order, new_log) is Ok {
        let (desk, taker, opened, walked, swept) = lemma_market_told(ledger, ctx, side, order, new_log);
        let p = crate::order_rules::market(ledger, ctx, side, order, new_log)->Ok_0;
        let after = p.desk.ledger;
        match side {
            Side::Bid => {
                lemma_market_bid_closes(desk.with_ledger(swept), ctx, order, walked.tally);
            },
            Side::Ask => {
                lemma_market_ask_closes(desk.with_ledger(swept), ctx, order, walked.tally);
            },
        }
        let factor = units_of(ctx.market.mkt_decimals);
        let trades = p.trades(ledger);
        let gone = p.expiries(ledger);
    }
}

impl Ledger {
    /// Whether an order of a user could trade with a posted one: it is of someone else, has not
    /// expired, and its price is within the limit.
    pub open spec fn is_open_to(self, user: Pubkey, side: Side, limit: Option<u64>, now: i64, key: u128) -> bool {
        let posted = self.across(side)[key];
        &&& self.across(side).contains_key(key)
        &&& posted.owner != user
        &&& posted.value.expiry == 0 || posted.value.expiry > now
        &&& limit matches Some(price) ==> match side {
            Side::Bid => (key >> 64) as u64 <= price,
            Side::Ask => (key >> 64) as u64 >= price,
        }
    }
}

/// Whether something was traded with an order.
pub open spec fn trades_with(trades: Seq<MatchEvent>, key: u128) -> bool {
    exists|k: int|
        0 <= k < trades.len() && (#[trigger] trades[k]).maker_order_id == key && (trades[k].amount > 0
            || trades[k].maker_filled)
}

#[verifier::rlimit(60)]
proof fn lemma_takes(
    ledger: Ledger,
    opened: Ledger,
    taker: Taker,
    to_fill: u64,
    walked: Walked,
    swept: Ledger,
    key: u128,
    other: u128,
)
    requires
        opened.has_logs(),
        ledger.bids.dom().finite(),
        ledger.asks.dom().finite(),
        ledger.bids == opened.bids,
        ledger.asks == opened.asks,
        !taker.preview,
        opened.matched(taker, to_fill) == Ok::<Walked, ErrorCode>(walked),
        crate::order_rules::cleared(walked.ledger, taker, walked.expired) == Ok::<Ledger, ErrorCode>(swept),
        opened.has_traded(taker, to_fill, walked.ledger, walked.tally),
    ensures
        ({
            let trades = crate::trades::trades_since(opened.events, walked.ledger.events);
            let gone = crate::refunds::expiries_since(walked.ledger.events, swept.events);
            let open = ledger.is_open_to(taker.user, taker.side, taker.limit, taker.now, key);
            let late = {
                &&& ledger.across(taker.side).contains_key(key)
                &&& ledger.across(taker.side)[key].value.expiry != 0
                &&& ledger.across(taker.side)[key].value.expiry <= taker.now
            };
            let ahead = match taker.side {
                Side::Bid => key < other,
                Side::Ask => key > other,
            };
            &&& open && taker.by_quantity && walked.tally.filled < to_fill ==> !swept.across(
                taker.side,
            ).contains_key(key)
            &&& open && !taker.by_quantity && walked.tally.paid < to_fill ==> !swept.across(
                taker.side,
            ).contains_key(key)
            &&& open && ahead && trades_with(trades, other) ==> !swept.across(taker.side).contains_key(key)
            &&& late && ahead && trades_with(trades, other) && gone.len() < 10 ==> !swept.across(
                taker.side,
            ).contains_key(key)
        }),
{
    let side = taker.side.spec_opposite();
    let trades = crate::trades::trades_since(opened.events, walked.ledger.events);
    assert(opened.side(side) == opened.across(taker.side));
    assert(walked.ledger.side(side) == walked.ledger.across(taker.side));
    assert(swept.side(side) == swept.across(taker.side));
    assert(ledger.across(taker.side) == opened.across(taker.side));
    opened.lemma_match_and_sweep(taker, to_fill);
    assert(walked.ledger.within(swept)) by {
        reveal(crate::order_rules::cleared);
        walked.ledger.lemma_swept_within(taker, walked.expired, 0);
    }
    let open = ledger.is_open_to(taker.user, taker.side, taker.limit, taker.now, key);
    let ahead = match taker.side {
        Side::Bid => key < other,
        Side::Ask => key > other,
    };
    if open {
        assert(taker.may_take(key, opened.side(side)[key]));
        opened.law_filled_as_far_as_possible(taker, to_fill, key);
    }
    if ahead && trades_with(trades, other) {
        let k = choose|k: int|
            0 <= k < trades.len() && (#[trigger] trades[k]).maker_order_id == other && (trades[k].amount
                > 0 || trades[k].maker_filled);
        assert(trades[k].maker_order_id == other);
        assert(opened.yields(walked.ledger, taker.side, trades));
        if open {
            crate::priority::lemma_ahead(side, key, other);
            opened.law_nobody_is_passed_over(taker, to_fill, key, other);
            assert(!opened.keeps(side, other, walked.ledger));
        } else if ledger.is_late(side, key, taker.now) {
            assert(opened.is_late(side, key, taker.now));
            assert(crate::refunds::is_ahead(side, key, trades[k].maker_order_id));
            assert(swept.along(side) == swept.across(taker.side));
        }
    }
}

/// A limit order that is not filled completely leaves no order in the book that it could trade with.
/// An order that it could trade with, and that has the better price or the same and is older, is
/// used up before another is traded with; expired orders that are ahead of one that is traded with
/// are removed, up to ten.
#[verifier::rlimit(60)]
pub proof fn law_limit_takes(
    ledger: Ledger,
    ctx: OrderContext,
    side: Side,
    order: LimitOrder,
    new_log: (Pubkey, nat),
    key: u128,
    other: u128,
)
    requires
        is_sound(ledger),
        ctx.market.mkt_decimals <= 19,
        !order.preview,
        order.post ==> ledger.state.order_counter < u64::MAX,
    ensures
        crate::order_rules::limit(ledger, ctx, side, order, new_log) matches Ok(p) ==> {
            let trades = p.trades(ledger);
            let open = ledger.is_open_to(ctx.user, side, Some(order.price), ctx.now, key);
            let late = {
                &&& ledger.across(side).contains_key(key)
                &&& ledger.across(side)[key].value.expiry != 0
                &&& ledger.across(side)[key].value.expiry <= ctx.now
            };
            let ahead = match side {
                Side::Bid => key < other,
                Side::Ask => key > other,
            };
            let left = p.desk.ledger.across(side);
            &&& open && crate::trades::market_tokens(trades) < order.quantity ==> !left.contains_key(key)
            &&& open && ahead && trades_with(trades, other) ==> !left.contains_key(key)
            &&& late && ahead && trades_with(trades, other) && p.expiries(ledger).len() < 10
                ==> !left.contains_key(key)
        },
{
    if crate::order_rules::limit(ledger, ctx, side, order, new_log) is Ok {
        let st = lemma_limit_told(ledger, ctx, side, order, new_log);
        let p = crate::order_rules::limit(ledger, ctx, side, order, new_log)->Ok_0;
        let last = st.desk.with_ledger(st.rest.ledger);
        match side {
            Side::Bid => {
                lemma_bid_closes(last, ctx, order, st.expiry, st.brings, st.walked.tally, st.rest);
            },
            Side::Ask => {
                lemma_ask_closes(last, ctx, order, st.expiry, st.walked.tally, st.rest);
            },
        }
        lemma_takes(
            ledger,
            st.opened,
            st.taker,
            order.quantity,
            st.walked,
            st.swept,
            key,
            other,
        );
        assert(p.desk.ledger.across(side) == st.swept.across(side));
    }
}

/// A market order that is not filled completely leaves no order in the book that it could trade with.
/// An order that it could trade with, and that has the better price or the same and is older, is
/// used up before another is traded with; expired orders that are ahead of one that is traded with
/// are removed, up to ten.
#[verifier::rlimit(60)]
pub proof fn law_market_takes(
    ledger: Ledger,
    ctx: OrderContext,
    side: Side,
    order: MarketOrder,
    new_log: (Pubkey, nat),
    key: u128,
    other: u128,
)
    requires
        is_sound(ledger),
        ctx.market.mkt_decimals <= 19,
        !order.preview,
    ensures
        crate::order_rules::market(ledger, ctx, side, order, new_log) matches Ok(p) ==> {
            let trades = p.trades(ledger);
            let cost = crate::trades::pricing_tokens(trades, units_of(ctx.market.mkt_decimals), order.net());
            let open = ledger.is_open_to(ctx.user, side, None, ctx.now, key);
            let late = {
                &&& ledger.across(side).contains_key(key)
                &&& ledger.across(side)[key].value.expiry != 0
                &&& ledger.across(side)[key].value.expiry <= ctx.now
            };
            let ahead = match side {
                Side::Bid => key < other,
                Side::Ask => key > other,
            };
            let left = p.desk.ledger.across(side);
            &&& open && order.by_quantity && crate::trades::market_tokens(trades) < order.quantity ==> !left.contains_key(key)
            &&& open && !order.by_quantity && cost < order.net_price ==> !left.contains_key(key)
            &&& open && ahead && trades_with(trades, other) ==> !left.contains_key(key)
            &&& late && ahead && trades_with(trades, other) && p.expiries(ledger).len() < 10
                ==> !left.contains_key(key)
        },
{
    if crate::order_rules::market(ledger, ctx, side, order, new_log) is Ok {
        let (desk, taker, opened, walked, swept) = lemma_market_told(ledger, ctx, side, order, new_log);
        let p = crate::order_rules::market(ledger, ctx, side, order, new_log)->Ok_0;
        match side {
            Side::Bid => {
                lemma_market_bid_closes(desk.with_ledger(swept), ctx, order, walked.tally);
            },
            Side::Ask => {
                lemma_market_ask_closes(desk.with_ledger(swept), ctx, order, walked.tally);
            },
        }
        lemma_takes(ledger, opened, taker, order.to_fill(), walked, swept, key, other);
        assert(p.desk.ledger.across(side) == swept.across(side));
    }
}

impl crate::exchange::Exchange {
    /// What a sound exchange holds is what these laws are about.
    pub proof fn law_exchange_is_sound(self)
        requires
            self.wf(),
        ensures
            is_sound(self.ledger()),
    {
        self.law_exchange_has_books();
        self.settle_a.lemma_size();
        self.settle_b.lemma_size();
        reveal(crate::trade_log::TradeLog::wf);
    }
}

} // verus!
