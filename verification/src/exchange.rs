//! The accounts of an exchange, and the steps of its instructions on them.
use crate::ledger::{Fill, Ledger, Settling, Taker, Tally, EXPIRE_EVENT, SETTLE_EVENT};
use crate::market::{
    ErrorCode, Event, ExpireEvent, MarketState, MatchEvent, SettleEvent, Side, MAX_EXPIRATIONS,
};
use crate::math::{calculate_fee, fill_quantity, minus, plus, scale_price};
use crate::node::OwnedLeaf;
use crate::order_book::OrderBook;
use crate::pubkey::Pubkey;
use crate::records::{Order, TradeEntry};
use crate::settlement::{owner_key, SettleLog};
use crate::shelf::Kept;
use crate::trade_log::TradeLog;
use vstd::prelude::*;

verus! {

/// The accounts that an order touches, and what is reported on the way.
#[derive(Debug)]
pub struct Exchange {
    pub state: MarketState,
    pub orders: OrderBook,
    pub trade_log: TradeLog,
    pub settle_a: SettleLog,
    pub settle_b: SettleLog,
    pub events: Vec<Event>,
}

/// What the matching of an order came to.
#[derive(Debug)]
pub struct Matched {
    pub tally: Tally,
    pub expired: Vec<u128>,
}

pub fn deposit(state: &mut MarketState, mkt_token: bool, amount: u64) -> (r: Result<(), ErrorCode>)
    ensures
        match crate::ledger::deposited(*old(state), mkt_token, amount) {
            Ok(after) => r is Ok && *final(state) == after,
            Err(e) => r == Err::<(), ErrorCode>(e),
        },
{
    if mkt_token {
        state.mkt_vault_balance = plus(state.mkt_vault_balance, amount)?;
        state.mkt_order_balance = plus(state.mkt_order_balance, amount)?;
    } else {
        state.prc_vault_balance = plus(state.prc_vault_balance, amount)?;
        state.prc_order_balance = plus(state.prc_order_balance, amount)?;
    }
    Ok(())
}

pub fn release(state: &mut MarketState, mkt_token: bool, amount: u64) -> (r: Result<(), ErrorCode>)
    ensures
        match crate::ledger::released(*old(state), mkt_token, amount) {
            Ok(after) => r is Ok && *final(state) == after,
            Err(e) => r == Err::<(), ErrorCode>(e),
        },
{
    if mkt_token {
        state.mkt_vault_balance = minus(state.mkt_vault_balance, amount)?;
        state.mkt_order_balance = minus(state.mkt_order_balance, amount)?;
    } else {
        state.prc_vault_balance = minus(state.prc_vault_balance, amount)?;
        state.prc_order_balance = minus(state.prc_order_balance, amount)?;
    }
    Ok(())
}

pub fn take_commission(state: &mut MarketState, fee: u64) -> (r: Result<(), ErrorCode>)
    ensures
        match crate::ledger::commissioned(*old(state), fee) {
            Ok(after) => r is Ok && *final(state) == after,
            Err(e) => r == Err::<(), ErrorCode>(e),
        },
{
    state.prc_vault_balance = plus(state.prc_vault_balance, fee)?;
    state.prc_fees_balance = plus(state.prc_fees_balance, fee)?;
    Ok(())
}

pub fn keep_commission(state: &mut MarketState, fee: u64) -> (r: Result<(), ErrorCode>)
    ensures
        match crate::ledger::kept_back(*old(state), fee) {
            Ok(after) => r is Ok && *final(state) == after,
            Err(e) => r == Err::<(), ErrorCode>(e),
        },
{
    state.prc_order_balance = minus(state.prc_order_balance, fee)?;
    state.prc_fees_balance = plus(state.prc_fees_balance, fee)?;
    Ok(())
}

pub fn count_out(state: &mut MarketState, side: Side) -> (r: Result<(), ErrorCode>)
    ensures
        match crate::ledger::one_less(*old(state), side) {
            Ok(after) => r is Ok && *final(state) == after,
            Err(e) => r == Err::<(), ErrorCode>(e),
        },
{
    match side {
        Side::Bid => {
            state.active_bid = minus(state.active_bid, 1)?;
        },
        Side::Ask => {
            state.active_ask = minus(state.active_ask, 1)?;
        },
    }
    Ok(())
}

fn count_in(state: &mut MarketState, side: Side) -> (r: Result<(), ErrorCode>)
    ensures
        match crate::ledger::one_more(*old(state), side) {
            Ok(after) => r is Ok && *final(state) == after,
            Err(e) => r == Err::<(), ErrorCode>(e),
        },
{
    match side {
        Side::Bid => {
            state.active_bid = plus(state.active_bid, 1)?;
        },
        Side::Ask => {
            state.active_ask = plus(state.active_ask, 1)?;
        },
    }
    Ok(())
}

/// Moves tokens of an order to the account of their owner in the settlement log: in the active log,
/// or, if that is full, in the next one.
pub fn log_settlement(
    state: &mut MarketState,
    settle_a: &mut SettleLog,
    settle_b: &mut SettleLog,
    events: &mut Vec<Event>,
    market: &Pubkey,
    owner: &Pubkey,
    mkt_token: bool,
    amount: u64,
    now: i64,
) -> (r: Result<(), ErrorCode>)
    requires
        old(settle_a).wf(),
        old(settle_b).wf(),
    ensures
        final(settle_a).wf(),
        final(settle_b).wf(),
        final(settle_a).key == old(settle_a).key,
        final(settle_b).key == old(settle_b).key,
        match (Settling {
            state: *old(state),
            log_a: old(settle_a).view(),
            log_b: old(settle_b).view(),
            events: old(events)@,
        }).settle(*market, *owner, mkt_token, amount, now) {
            Ok(after) => r is Ok && *final(state) == after.state && final(settle_a).view() == after.log_a
                && final(settle_b).view() == after.log_b && final(events)@ == after.events,
            Err(e) => r == Err::<(), ErrorCode>(e),
        },
{
    let id: u128 = owner_key(owner);
    let mut log_key: Pubkey = settle_a.key;
    match settle_a.settle_account(id, owner, mkt_token, amount, now) {
        Ok(_) => {},
        Err(ErrorCode::SettlementLogFull) => {
            state.log_rollover = true;
            log_key = settle_b.key;
            match settle_b.settle_account(id, owner, mkt_token, amount, now) {
                Ok(_) => {},
                Err(e) => {
                    return Err(e);
                },
            }
        },
        Err(e) => {
            return Err(e);
        },
    }
    if mkt_token {
        state.mkt_order_balance = minus(state.mkt_order_balance, amount)?;
        state.mkt_log_balance = plus(state.mkt_log_balance, amount)?;
    } else {
        state.prc_order_balance = minus(state.prc_order_balance, amount)?;
        state.prc_log_balance = plus(state.prc_log_balance, amount)?;
    }
    events.push(
        Event::Settle(
            SettleEvent {
                event_type: SETTLE_EVENT,
                action_id: state.action_counter,
                market: *market,
                owner: *owner,
                settlement_log: log_key,
                market_tokens: if mkt_token {
                    amount
                } else {
                    0
                },
                pricing_tokens: if mkt_token {
                    0
                } else {
                    amount
                },
            },
        ),
    );
    Ok(())
}

impl Taker {
    /// What the order takes from a posted order.
    pub fn take(&self, tally: &Tally, key: u128, owner: &Pubkey, order: &Order) -> (r: Result<Fill, ErrorCode>)
        ensures
            r == self.fill(*tally, key, Kept { owner: *owner, value: *order }),
    {
        let price: u64 = Order::price(key);
        let amount: u64 = order.amount;
        let to_fill: u64 = tally.to_fill;
        let quantity: u64;
        let tokens: u64;
        let maker_filled: bool;
        let last: bool;
        if self.by_quantity {
            quantity = if amount <= to_fill {
                amount
            } else {
                to_fill
            };
            tokens = scale_price(quantity, price, self.factor)?;
            maker_filled = amount <= to_fill;
            last = amount >= to_fill;
        } else {
            let posted_part: u64 = scale_price(amount, price, self.factor)?;
            if posted_part <= to_fill {
                quantity = amount;
                tokens = posted_part;
                maker_filled = true;
                last = posted_part == to_fill;
            } else {
                quantity = fill_quantity(to_fill, price, self.factor)?;
                tokens = to_fill;
                maker_filled = false;
                last = true;
            }
        }
        let event_type: u128 = if !maker_filled {
            self.partial_event
        } else if last {
            self.exact_event
        } else {
            self.entire_event
        };
        Ok(Fill { key, owner: *owner, price, quantity, tokens, maker_filled, last, event_type })
    }

    /// Adds a fill to the tally.
    fn tally(&self, tally: &Tally, key: u128, order: Ghost<Kept<Order>>, fill: &Fill) -> (r: Result<
        Tally,
        ErrorCode,
    >)
        requires
            self.fill(*tally, key, order@) == Ok::<Fill, ErrorCode>(*fill),
        ensures
            r == self.tallied(*tally, *fill),
    {
        let filled: u64 = plus(tally.filled, fill.quantity)?;
        let paid: u64 = plus(tally.paid, fill.tokens)?;
        let part: u64 = calculate_fee(self.taker_fee, fill.tokens)?;
        let fee: u64 = plus(tally.fee, part)?;
        let to_fill: u64 = if fill.last {
            tally.to_fill
        } else if self.by_quantity {
            tally.to_fill - fill.quantity
        } else {
            tally.to_fill - fill.tokens
        };
        Ok(Tally { to_fill, filled, paid, fee })
    }
}

/// Whether a posted order can be matched with an order of `user`: it has not expired and is of
/// someone else. The key of an expired one is noted.
pub fn valid_order(leaf: &OwnedLeaf, order: &Order, user: &Pubkey, expired: &mut Vec<u128>, now: i64) -> (r: bool)
    ensures
        r == (!crate::ledger::is_expired(*order, now) && leaf.owner != *user),
        final(expired)@ == if crate::ledger::is_expired(*order, now) {
            old(expired)@.push(leaf.key)
        } else {
            old(expired)@
        },
{
    if order.expiry != 0 && order.expiry <= now {
        expired.push(leaf.key());
        return false;
    }
    leaf.owner() != *user
}

impl Exchange {
    pub open spec fn ledger(self) -> Ledger {
        Ledger {
            state: self.state,
            orders_key: self.orders.key,
            trade_log_key: self.trade_log.key,
            bids: self.orders.orders(Side::Bid),
            asks: self.orders.orders(Side::Ask),
            bid_slots: self.orders.slots(Side::Bid),
            ask_slots: self.orders.slots(Side::Ask),
            trades: self.trade_log.trades(),
            log_a: self.settle_a.view(),
            log_b: self.settle_b.view(),
            events: self.events@,
        }
    }

    /// Whether each account is sound.
    pub open spec fn sound(self) -> bool {
        &&& self.orders.wf()
        &&& self.trade_log.wf()
        &&& self.settle_a.wf()
        &&& self.settle_b.wf()
    }

    /// Whether the accounts are sound and every order has a number that was given out.
    pub open spec fn wf(self) -> bool {
        self.sound() && self.ledger().numbered()
    }

    /// Whether `other` is made of the same accounts.
    pub open spec fn same_accounts(self, other: Exchange) -> bool {
        &&& other.orders.key == self.orders.key
        &&& other.trade_log.key == self.trade_log.key
        &&& other.settle_a.key == self.settle_a.key
        &&& other.settle_b.key == self.settle_b.key
    }

    /// Moves tokens of an order to the account of their owner in the settlement log.
    pub fn settle(&mut self, market: &Pubkey, owner: &Pubkey, mkt_token: bool, amount: u64, now: i64) -> (r: Result<
        (),
        ErrorCode,
    >)
        requires
            old(self).sound(),
        ensures
            final(self).sound(),
            old(self).same_accounts(*final(self)),
            match old(self).ledger().settle(*market, *owner, mkt_token, amount, now) {
                Ok(after) => r is Ok && final(self).ledger() == after,
                Err(e) => r == Err::<(), ErrorCode>(e),
            },
    {
        let ghost before = self.ledger();
        log_settlement(
            &mut self.state,
            &mut self.settle_a,
            &mut self.settle_b,
            &mut self.events,
            market,
            owner,
            mkt_token,
            amount,
            now,
        )?;
        assert(self.ledger() =~= before.settle(*market, *owner, mkt_token, amount, now)->Ok_0);
        Ok(())
    }

    /// Logs and reports a trade.
    pub fn log_trade(&mut self, taker: &Taker, fill: &Fill) -> (r: Result<(), ErrorCode>)
        requires
            old(self).sound(),
        ensures
            final(self).sound(),
            old(self).same_accounts(*final(self)),
            final(self).orders == old(self).orders,
            match old(self).ledger().logged(*taker, *fill) {
                Ok(after) => r is Ok && final(self).ledger() == after,
                Err(e) => r == Err::<(), ErrorCode>(e),
            },
    {
        let ghost before = self.ledger();
        let entry = TradeEntry {
            event_type: fill.event_type,
            action_id: self.state.action_counter,
            trade_id: 0,
            maker_order_id: fill.key,
            maker_filled: fill.maker_filled,
            maker: fill.owner,
            taker: taker.user,
            taker_side: taker.side.code(),
            amount: fill.quantity,
            price: fill.price,
            ts: taker.now,
        };
        let trade_id: u64 = self.trade_log.record(&entry)?;
        self.events.push(
            Event::Match(
                MatchEvent {
                    event_type: fill.event_type,
                    action_id: self.state.action_counter,
                    trade_id,
                    market: taker.market,
                    maker_order_id: fill.key,
                    maker_filled: fill.maker_filled,
                    maker: fill.owner,
                    taker: taker.user,
                    taker_side: taker.side.code(),
                    amount: fill.quantity,
                    price: fill.price,
                    ts: taker.now,
                },
            ),
        );
        assert(self.ledger() =~= before.logged(*taker, *fill)->Ok_0);
        Ok(())
    }

    /// Takes an order off the book.
    pub fn take_off(&mut self, side: Side, key: u128) -> (r: Result<(), ErrorCode>)
        requires
            old(self).sound(),
        ensures
            final(self).sound(),
            old(self).same_accounts(*final(self)),
            match old(self).ledger().taken_off(side, key) {
                Ok(after) => r is Ok && final(self).ledger() == after,
                Err(e) => r == Err::<(), ErrorCode>(e),
            },
    {
        let ghost before = self.ledger();
        self.orders.remove(side, key);
        count_out(&mut self.state, side)?;
        assert(self.ledger() =~= before.taken_off(side, key)->Ok_0);
        Ok(())
    }

    /// Carries out one fill.
    pub fn carry_out(&mut self, taker: &Taker, fill: &Fill, leaf: &OwnedLeaf, order: &Order) -> (r: Result<
        (),
        ErrorCode,
    >)
        requires
            old(self).sound(),
            old(self).orders.orders(taker.side.spec_opposite()).contains_key(fill.key),
            old(self).orders.orders(taker.side.spec_opposite())[fill.key] == (Kept {
                owner: leaf.owner,
                value: *order,
            }),
            old(self).orders.slab.map::<Pubkey>(taker.side.spec_opposite().map_entry())[fill.key] == *leaf,
            leaf.key == fill.key,
        ensures
            final(self).sound(),
            old(self).same_accounts(*final(self)),
            match old(self).ledger().filled(*taker, *fill) {
                Ok(after) => r is Ok && final(self).ledger() == after,
                Err(e) => r == Err::<(), ErrorCode>(e),
            },
    {
        let ghost before = self.ledger();
        let maker_side: Side = taker.side.opposite();
        self.log_trade(taker, fill)?;
        let ghost logged = self.ledger();
        if fill.maker_filled {
            self.take_off(maker_side, fill.key)?;
        } else {
            let new_amount: u64 = minus(order.amount, fill.quantity)?;
            let mut rest: Order = *order;
            rest.set_amount(new_amount);
            self.orders.set(maker_side, leaf, &rest);
            assert(self.ledger() =~= logged.reduced(maker_side, *fill)->Ok_0);
        }
        let ghost reduced = self.ledger();
        assert(logged.reduced(maker_side, *fill) == Ok::<Ledger, ErrorCode>(reduced));
        let mkt_token: bool = taker.side == Side::Ask;
        let amount: u64 = if mkt_token {
            fill.quantity
        } else {
            fill.tokens
        };
        if taker.pays_by_fill {
            deposit(&mut self.state, mkt_token, amount)?;
        }
        self.state.last_price = fill.price;
        self.state.last_ts = taker.now;
        self.settle(&taker.market, &fill.owner, mkt_token, amount, taker.now)
    }

    /// Matches an order with the posted orders of the other side.
    #[verifier::rlimit(40)]
    pub fn match_order(&mut self, taker: &Taker, to_fill: u64) -> (r: Result<Matched, ErrorCode>)
        requires
            old(self).sound(),
        ensures
            final(self).sound(),
            old(self).same_accounts(*final(self)),
            match old(self).ledger().matched(*taker, to_fill) {
                Ok(walked) => r matches Ok(m) && final(self).ledger() == walked.ledger && m.tally
                    == walked.tally && m.expired@ == walked.expired,
                Err(e) => r == Err::<Matched, ErrorCode>(e),
            },
            r matches Ok(m) ==> forall|i: int|
                0 <= i < m.expired@.len() ==> final(self).orders.orders(
                    taker.side.spec_opposite(),
                ).contains_key(#[trigger] m.expired@[i]),
            r matches Ok(m) ==> m.expired@.no_duplicates(),
            taker.preview ==> *final(self) == *old(self),
    {
        proof {
            reveal(Ledger::matched);
        }
        let maker_side: Side = taker.side.opposite();
        let leaves: Vec<OwnedLeaf> = self.orders.list(maker_side);
        let n: usize = leaves.len();
        let ghost before = self.ledger();
        let ghost orders = self.orders.orders(maker_side);
        let ghost keys = crate::ledger::best_first(maker_side, orders);
        let ghost up = crate::sorted::ascending(orders.dom());
        let ghost tally0 = Tally { to_fill, filled: 0, paid: 0, fee: 0 };
        let mut tally: Tally = Tally { to_fill, filled: 0, paid: 0, fee: 0 };
        let mut expired: Vec<u128> = Vec::new();
        let mut i: usize = 0;
        proof {
            self.orders.lemma_size(maker_side);
            crate::sorted::lemma_ascending_exists(orders.dom());
            crate::sorted::lemma_ascending(up, orders.dom());
            assert(keys.len() == n);
            assert forall|j: int| 0 <= j < n implies #[trigger] leaves@[j] == self.orders.slab.map::<Pubkey>(
                maker_side.map_entry(),
            )[up[j]] && leaves@[j].key == up[j] && orders.contains_key(up[j]) by {
                assert(up.contains(up[j]));
                assert(orders.dom().contains(up[j]));
            }
            assert forall|j: int, k: int| 0 <= j < n && 0 <= k < n && j != k implies keys[j] != keys[k] by {}
            assert forall|j: int| 0 <= j < n implies orders.contains_key(#[trigger] keys[j]) by {
                assert(up.contains(keys[j])) by {
                    match maker_side {
                        Side::Bid => {
                            assert(keys[j] == up[n - 1 - j]);
                        },
                        Side::Ask => {
                            assert(keys[j] == up[j]);
                        },
                    }
                }
            }
            assert forall|j: int| 0 <= j < n implies #[trigger] keys[j] == leaves@[match maker_side {
                Side::Bid => n - 1 - j,
                Side::Ask => j,
            }].key by {}
        }
        while i < n
            invariant
                i <= n,
                n == leaves@.len(),
                n == keys.len(),
                self.sound(),
                old(self).same_accounts(*self),
                maker_side == taker.side.spec_opposite(),
                taker.preview ==> *self == *old(self),
                forall|j: int, k: int| 0 <= j < n && 0 <= k < n && j != k ==> keys[j] != keys[k],
                forall|j: int|
                    0 <= j < n ==> #[trigger] keys[j] == leaves@[match maker_side {
                        Side::Bid => n - 1 - j,
                        Side::Ask => j,
                    }].key,
                forall|j: int|
                    i <= j < n ==> self.orders.orders(maker_side).contains_key(#[trigger] keys[j]),
                old(self).ledger().matched(*taker, to_fill) == self.ledger().walk(
                    *taker,
                    tally,
                    keys,
                    i as int,
                    expired@,
                ),
                expired@.no_duplicates(),
                forall|e: int|
                    0 <= e < expired@.len() ==> self.orders.orders(maker_side).contains_key(
                        #[trigger] expired@[e],
                    ),
                forall|e: int, j: int|
                    0 <= e < expired@.len() && i <= j < n ==> #[trigger] expired@[e]
                        != #[trigger] keys[j],
            decreases n - i,
        {
            let at: usize = match maker_side {
                Side::Bid => n - 1 - i,
                Side::Ask => i,
            };
            let key: u128 = leaves[at].key();
            assert(key == keys[i as int]);
            let ghost current = self.ledger();
            let ghost kept = current.side(maker_side)[key];
            let (leaf, order) = match self.orders.get(maker_side, key) {
                Some(found) => found,
                None => {
                    assert(false);
                    return Err(ErrorCode::InternalError);
                },
            };
            assert(kept == (Kept { owner: leaf.owner, value: order }));
            if valid_order(&leaf, &order, &taker.user, &mut expired, taker.now) {
                let price: u64 = Order::price(key);
                let within: bool = match taker.limit {
                    None => true,
                    Some(p) => match taker.side {
                        Side::Bid => price <= p,
                        Side::Ask => price >= p,
                    },
                };
                if !within {
                    return Ok(Matched { tally, expired });
                }
                let fill: Fill = taker.take(&tally, key, &leaf.owner, &order)?;
                let next: Tally = taker.tally(&tally, key, Ghost(kept), &fill)?;
                if !taker.preview {
                    self.carry_out(taker, &fill, &leaf, &order)?;
                    proof {
                        Self::lemma_filled_orders(current, *taker, fill);
                        assert forall|k: u128| k != key && current.side(maker_side).contains_key(
                            k,
                        ) implies #[trigger] self.ledger().side(maker_side).contains_key(k) by {}
                        assert forall|e: int|
                            0 <= e < expired@.len() implies self.orders.orders(
                            maker_side,
                        ).contains_key(#[trigger] expired@[e]) by {
                            assert(expired@[e] != keys[i as int]);
                            assert(self.ledger().side(maker_side).contains_key(expired@[e]));
                        }
                        assert forall|j: int| i < j < n implies self.orders.orders(
                            maker_side,
                        ).contains_key(#[trigger] keys[j]) by {
                            assert(keys[j] != keys[i as int]);
                            assert(self.ledger().side(maker_side).contains_key(keys[j]));
                        }
                    }
                }
                tally = next;
                if fill.last {
                    return Ok(Matched { tally, expired });
                }
            }
            i = i + 1;
        }
        Ok(Matched { tally, expired })
    }

    /// A fill removes at most the posted order that it fills.
    proof fn lemma_filled_orders(ledger: Ledger, taker: Taker, fill: Fill)
        requires
            ledger.filled(taker, fill) is Ok,
        ensures
            ({
                let after = ledger.filled(taker, fill)->Ok_0;
                let maker = taker.side.spec_opposite();
                &&& after.side(taker.side) == ledger.side(taker.side)
                &&& forall|k: u128| #[trigger]
                    after.side(maker).contains_key(k) ==> ledger.side(maker).contains_key(k) || k
                        == fill.key
                &&& forall|k: u128|
                    k != fill.key && ledger.side(maker).contains_key(k)
                        ==> #[trigger] after.side(maker).contains_key(k)
                &&& after.state.order_counter == ledger.state.order_counter
            }),
    {
    }

    /// Removes expired orders, the last that was met first, a limited number of them.
    pub fn sweep(&mut self, taker: &Taker, expired: Vec<u128>) -> (r: Result<(), ErrorCode>)
        requires
            old(self).sound(),
            expired@.no_duplicates(),
            forall|i: int|
                0 <= i < expired@.len() ==> old(self).orders.orders(
                    taker.side.spec_opposite(),
                ).contains_key(#[trigger] expired@[i]),
        ensures
            final(self).sound(),
            old(self).same_accounts(*final(self)),
            match old(self).ledger().swept(*taker, expired@, 0) {
                Ok(after) => r is Ok && final(self).ledger() == after,
                Err(e) => r == Err::<(), ErrorCode>(e),
            },
    {
        let maker_side: Side = taker.side.opposite();
        let mut expired: Vec<u128> = expired;
        let ghost all = expired@;
        let mut count: u32 = 0;
        #[verifier::loop_isolation(false)]
        while expired.len() > 0 && count < MAX_EXPIRATIONS
            invariant
                self.sound(),
                old(self).same_accounts(*self),
                maker_side == taker.side.spec_opposite(),
                count <= MAX_EXPIRATIONS,
                expired@.no_duplicates(),
                forall|i: int|
                    0 <= i < expired@.len() ==> self.orders.orders(maker_side).contains_key(
                        #[trigger] expired@[i],
                    ),
                old(self).ledger().swept(*taker, all, 0) == self.ledger().swept(
                    *taker,
                    expired@,
                    count as nat,
                ),
            decreases expired@.len(),
        {
            let ghost current = self.ledger();
            let ghost listed = expired@;
            let key: u128 = match expired.pop() {
                Some(k) => k,
                None => {
                    assert(false);
                    return Err(ErrorCode::InternalError);
                },
            };
            assert(key == listed.last());
            assert(expired@ == listed.drop_last());
            self.expire(&taker.market, maker_side, key, taker.factor, taker.now)?;
            proof {
                Self::lemma_expired_orders(current, taker.market, maker_side, key, taker.factor, taker.now);
                assert forall|i: int| 0 <= i < expired@.len() implies self.orders.orders(
                    maker_side,
                ).contains_key(#[trigger] expired@[i]) by {
                    assert(expired@[i] == listed[i]);
                    assert(self.ledger().side(maker_side).contains_key(expired@[i]));
                }
            }
            count = count + 1;
        }
        Ok(())
    }

    /// Returning an order removes it alone.
    proof fn lemma_expired_orders(ledger: Ledger, market: Pubkey, side: Side, key: u128, factor: u64, now: i64)
        requires
            ledger.expired_one(market, side, key, factor, now) is Ok,
        ensures
            ledger.expired_one(market, side, key, factor, now)->Ok_0.side(side) == ledger.side(
                side,
            ).remove(key),
            ledger.expired_one(market, side, key, factor, now)->Ok_0.side(side.spec_opposite())
                == ledger.side(side.spec_opposite()),
            ledger.expired_one(market, side, key, factor, now)->Ok_0.state.order_counter
                == ledger.state.order_counter,
    {
    }

    /// Reports an expired order and returns its tokens to its owner.
    pub fn expire(&mut self, market: &Pubkey, side: Side, key: u128, factor: u64, now: i64) -> (r: Result<
        (),
        ErrorCode,
    >)
        requires
            old(self).sound(),
            old(self).orders.orders(side).contains_key(key),
        ensures
            final(self).sound(),
            old(self).same_accounts(*final(self)),
            match old(self).ledger().expired_one(*market, side, key, factor, now) {
                Ok(after) => r is Ok && final(self).ledger() == after,
                Err(e) => r == Err::<(), ErrorCode>(e),
            },
    {
        let ghost before = self.ledger();
        let (leaf, order) = match self.orders.get(side, key) {
            Some(found) => found,
            None => {
                assert(false);
                return Err(ErrorCode::InternalError);
            },
        };
        let price: u64 = Order::price(key);
        let tokens: u64 = match side {
            Side::Bid => scale_price(order.amount, price, factor)?,
            Side::Ask => order.amount,
        };
        self.events.push(
            Event::Expire(
                ExpireEvent {
                    event_type: EXPIRE_EVENT,
                    action_id: self.state.action_counter,
                    market: *market,
                    owner: leaf.owner,
                    order_side: side.code(),
                    order_id: key,
                    price,
                    quantity: order.amount,
                    tokens,
                },
            ),
        );
        assert(self.ledger() =~= before.reporting(self.events@.last()));
        self.settle(market, &leaf.owner, side == Side::Ask, tokens, now)?;
        self.take_off(side, key)
    }

    /// Posts an order, on a full side in the place of the last order there.
    #[verifier::rlimit(40)]
    pub fn post(&mut self, taker: &Taker, price: u64, order: &Order) -> (r: Result<u128, ErrorCode>)
        requires
            old(self).wf(),
            old(self).state.order_counter < u64::MAX,
        ensures
            final(self).sound(),
            r is Ok ==> final(self).wf(),
            old(self).same_accounts(*final(self)),
            match old(self).ledger().posted(*taker, price, *order) {
                Ok(after) => r == Ok::<u128, ErrorCode>(
                    crate::order_book::order_key(taker.side, price, old(self).state.order_counter),
                ) && final(self).ledger() == after,
                Err(e) => r == Err::<u128, ErrorCode>(e),
            },
    {
        proof {
            reveal(Ledger::posted);
        }
        let ghost before = self.ledger();
        let side: Side = taker.side;
        let order_id: u128 = Order::new_key(&mut self.state, side, price);
        let ghost numbered = self.ledger();
        proof {
            crate::ledger::lemma_order_key(side, price, before.state.order_counter);
            assert(numbered =~= before.with_state(self.state));
            assert(!before.side(side).contains_key(order_id));
        }
        let mut evict: Option<u128> = None;
        if !self.orders.has_room(side) {
            proof {
                self.orders.lemma_size(side);
            }
            let leaf: OwnedLeaf = match self.orders.worst(side) {
                Some(leaf) => leaf,
                None => {
                    assert(false);
                    return Err(ErrorCode::InternalError);
                },
            };
            let key: u128 = leaf.key();
            proof {
                self.lemma_worst(side, key);
                assert(key == numbered.worst(side));
            }
            let last_price: u64 = Order::price(key);
            let better: bool = match side {
                Side::Bid => price > last_price,
                Side::Ask => price < last_price,
            };
            if !better {
                return Err(ErrorCode::OrderbookFull);
            }
            let (leaf, evicted) = match self.orders.get(side, key) {
                Some(found) => found,
                None => {
                    assert(false);
                    return Err(ErrorCode::InternalError);
                },
            };
            let tokens: u64 = match side {
                Side::Bid => scale_price(evicted.amount, last_price, taker.factor)?,
                Side::Ask => evicted.amount,
            };
            self.settle(&taker.market, &leaf.owner, side == Side::Ask, tokens, taker.now)?;
            count_out(&mut self.state, side)?;
            evict = Some(key);
        }
        count_in(&mut self.state, side)?;
        self.orders.post(side, order_id, &taker.user, order, evict);
        proof {
            let after = before.posted(*taker, price, *order)->Ok_0;
            assert(self.ledger() =~= after);
            assert forall|s: Side, k: u128| #[trigger] self.ledger().side(s).contains_key(
                k,
            ) implies crate::ledger::key_number(s, k) < self.state.order_counter by {
                if s == side && k == order_id {
                } else {
                    assert(before.side(s).contains_key(k));
                }
            }
        }
        Ok(order_id)
    }

    /// The last order of a side has the smallest key among bids and the largest among asks.
    proof fn lemma_worst(self, side: Side, key: u128)
        requires
            self.sound(),
            self.orders.orders(side).contains_key(key),
            forall|k: u128| #[trigger]
                self.orders.orders(side).contains_key(k) ==> match side {
                    Side::Bid => key <= k,
                    Side::Ask => k <= key,
                },
        ensures
            self.ledger().worst(side) == key,
    {
        let orders = self.orders.orders(side);
        self.orders.lemma_size(side);
        crate::sorted::lemma_ascending_exists(orders.dom());
        let up = crate::sorted::ascending(orders.dom());
        assert(orders.dom().contains(key));
        assert(up.contains(key));
        let i = choose|i: int| 0 <= i < up.len() && up[i] == key;
        match side {
            Side::Bid => {
                assert(up.reverse().last() == up[0]);
                assert(up.contains(up[0]));
                assert(orders.dom().contains(up[0]));
                assert(orders.contains_key(up[0]));
            },
            Side::Ask => {
                assert(up.contains(up.last()));
                assert(orders.dom().contains(up.last()));
                assert(orders.contains_key(up.last()));
            },
        }
    }
}

} // verus!
