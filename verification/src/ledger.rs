//! The rules of the exchange, stated over what its accounts hold.
//!
//! A [`Ledger`] is the content of the accounts that an order touches. The functions here say what
//! each step of an instruction makes of a ledger, or with which error it is refused; nothing in
//! this module is executed.
use crate::market::{
    ErrorCode, Event, ExpireEvent, MarketState, MatchEvent, SettleEvent, Side, MAX_EXPIRATIONS,
};
use crate::pubkey::Pubkey;
use crate::records::{Order, TradeEntry};
use crate::settlement::LogView;
use crate::shelf::Kept;
use crate::slab::SlabPageAlloc;
use crate::trade_log::Trades;
use vstd::prelude::*;

verus! {

pub const SETTLE_EVENT: u128 = 33111472894808803319726137140961827977;

pub const EXPIRE_EVENT: u128 = 16332991664789055110548783525139174482;

/// The content of the accounts of an exchange.
#[verifier::ext_equal]
pub struct Ledger {
    pub state: MarketState,
    pub orders_key: Pubkey,
    pub trade_log_key: Pubkey,
    pub bids: Map<u128, Kept<Order>>,
    pub asks: Map<u128, Kept<Order>>,
    pub bid_slots: nat,
    pub ask_slots: nat,
    pub trades: Trades,
    pub log_a: LogView,
    pub log_b: LogView,
    pub events: Seq<Event>,
}

/// An order that is being matched.
#[derive(Clone, Copy, Debug)]
pub struct Taker {
    pub market: Pubkey,
    pub user: Pubkey,
    pub side: Side,
    pub now: i64,
    /// The smallest units in one market token.
    pub factor: u64,
    pub taker_fee: u32,
    /// Whether the order is only tried out.
    pub preview: bool,
    /// The price that a fill must not be worse than, if there is one.
    pub limit: Option<u64>,
    /// Whether the order is for a number of market tokens, else for a number of pricing tokens.
    pub by_quantity: bool,
    /// Whether the taker's tokens are entered fill by fill, else all at once before.
    pub pays_by_fill: bool,
    pub exact_event: u128,
    pub entire_event: u128,
    pub partial_event: u128,
}

/// What has come of an order so far.
#[derive(Clone, Copy, Debug)]
pub struct Tally {
    /// What is still to be filled, in market tokens or in pricing tokens.
    pub to_fill: u64,
    /// Market tokens filled.
    pub filled: u64,
    /// Pricing tokens for them, before the fee.
    pub paid: u64,
    pub fee: u64,
}

/// One fill.
#[derive(Clone, Copy, Debug)]
pub struct Fill {
    pub key: u128,
    pub owner: Pubkey,
    pub price: u64,
    /// Market tokens.
    pub quantity: u64,
    /// Pricing tokens.
    pub tokens: u64,
    /// Whether nothing is left of the posted order.
    pub maker_filled: bool,
    /// Whether the order that is being matched is done.
    pub last: bool,
    pub event_type: u128,
}

/// How far the matching of an order has come.
#[verifier::ext_equal]
pub struct Walked {
    pub ledger: Ledger,
    pub tally: Tally,
    /// Expired orders that were met, in the order they were met in.
    pub expired: Seq<u128>,
}

/// Whether an order has expired.
pub open spec fn is_expired(order: Order, now: i64) -> bool {
    order.expiry != 0 && order.expiry <= now
}

/// The keys of one side's orders, those that are matched first in front.
pub open spec fn best_first(side: Side, orders: Map<u128, Kept<Order>>) -> Seq<u128> {
    match side {
        Side::Bid => crate::sorted::ascending(orders.dom()).reverse(),
        Side::Ask => crate::sorted::ascending(orders.dom()),
    }
}

/// Whether a posted order's price is no worse for the taker than the limit.
pub open spec fn within_limit(side: Side, limit: Option<u64>, price: u64) -> bool {
    match limit {
        None => true,
        Some(p) => match side {
            Side::Bid => price <= p,
            Side::Ask => price >= p,
        },
    }
}

impl Tally {
    /// The tally with one more fill of `quantity` market tokens for `tokens` pricing tokens.
    pub open spec fn adding(self, quantity: u64, tokens: u64, to_fill: u64, taker_fee: u32) -> Result<
        Tally,
        ErrorCode,
    > {
        match (
            crate::math::as_amount(self.filled + quantity),
            crate::math::as_amount(self.paid + tokens),
            crate::math::commission(taker_fee, tokens),
        ) {
            (Ok(filled), Ok(paid), Ok(part)) => match crate::math::as_amount(self.fee + part) {
                Ok(fee) => Ok(Tally { to_fill, filled, paid, fee }),
                Err(e) => Err(e),
            },
            _ => Err(ErrorCode::Overflow),
        }
    }
}

impl Taker {
    /// A fill of `quantity` market tokens for `tokens` pricing tokens.
    pub open spec fn filling(
        self,
        key: u128,
        owner: Pubkey,
        quantity: u64,
        tokens: u64,
        maker_filled: bool,
        last: bool,
    ) -> Fill {
        Fill {
            key,
            owner,
            price: crate::order_book::key_price(key),
            quantity,
            tokens,
            maker_filled,
            last,
            event_type: if !maker_filled {
                self.partial_event
            } else if last {
                self.exact_event
            } else {
                self.entire_event
            },
        }
    }

    /// What the order takes from a posted order: all of it, or what is still to be filled.
    pub open spec fn fill(self, tally: Tally, key: u128, kept: Kept<Order>) -> Result<Fill, ErrorCode> {
        let price = crate::order_book::key_price(key);
        let amount = kept.value.amount;
        let to_fill = tally.to_fill;
        if self.by_quantity {
            let quantity = if amount <= to_fill {
                amount
            } else {
                to_fill
            };
            match crate::math::cost(quantity, price, self.factor) {
                Err(e) => Err(e),
                Ok(tokens) => Ok(
                    self.filling(key, kept.owner, quantity, tokens, amount <= to_fill, amount >= to_fill),
                ),
            }
        } else {
            match crate::math::cost(amount, price, self.factor) {
                Err(e) => Err(e),
                Ok(tokens) => if tokens <= to_fill {
                    Ok(self.filling(key, kept.owner, amount, tokens, true, tokens == to_fill))
                } else {
                    match crate::math::buys(to_fill, price, self.factor) {
                        Err(e) => Err(e),
                        Ok(quantity) => Ok(
                            self.filling(key, kept.owner, quantity, to_fill, false, true),
                        ),
                    }
                },
            }
        }
    }

    /// What is still to be filled after a fill.
    pub open spec fn left(self, tally: Tally, fill: Fill) -> u64 {
        if fill.last {
            tally.to_fill
        } else if self.by_quantity {
            (tally.to_fill - fill.quantity) as u64
        } else {
            (tally.to_fill - fill.tokens) as u64
        }
    }

    /// The tally after a fill.
    pub open spec fn tallied(self, tally: Tally, fill: Fill) -> Result<Tally, ErrorCode> {
        tally.adding(fill.quantity, fill.tokens, self.left(tally, fill), self.taker_fee)
    }

    /// Whether the maker of a fill gets market tokens, which a taker who sells pays with.
    pub open spec fn pays_market_tokens(self) -> bool {
        self.side == Side::Ask
    }

    /// What the taker pays for a fill.
    pub open spec fn price_of(self, fill: Fill) -> u64 {
        if self.pays_market_tokens() {
            fill.quantity
        } else {
            fill.tokens
        }
    }
}

/// The state after tokens come into a vault for an order.
pub open spec fn deposited(state: MarketState, mkt_token: bool, amount: u64) -> Result<
    MarketState,
    ErrorCode,
> {
    if mkt_token {
        match (
            crate::math::as_amount(state.mkt_vault_balance + amount),
            crate::math::as_amount(state.mkt_order_balance + amount),
        ) {
            (Ok(vault), Ok(order)) => Ok(
                MarketState { mkt_vault_balance: vault, mkt_order_balance: order, ..state },
            ),
            _ => Err(ErrorCode::Overflow),
        }
    } else {
        match (
            crate::math::as_amount(state.prc_vault_balance + amount),
            crate::math::as_amount(state.prc_order_balance + amount),
        ) {
            (Ok(vault), Ok(order)) => Ok(
                MarketState { prc_vault_balance: vault, prc_order_balance: order, ..state },
            ),
            _ => Err(ErrorCode::Overflow),
        }
    }
}

/// The state after tokens of orders leave a vault.
pub open spec fn released(state: MarketState, mkt_token: bool, amount: u64) -> Result<
    MarketState,
    ErrorCode,
> {
    if mkt_token {
        match (
            crate::math::as_amount(state.mkt_vault_balance - amount),
            crate::math::as_amount(state.mkt_order_balance - amount),
        ) {
            (Ok(vault), Ok(order)) => Ok(
                MarketState { mkt_vault_balance: vault, mkt_order_balance: order, ..state },
            ),
            _ => Err(ErrorCode::Overflow),
        }
    } else {
        match (
            crate::math::as_amount(state.prc_vault_balance - amount),
            crate::math::as_amount(state.prc_order_balance - amount),
        ) {
            (Ok(vault), Ok(order)) => Ok(
                MarketState { prc_vault_balance: vault, prc_order_balance: order, ..state },
            ),
            _ => Err(ErrorCode::Overflow),
        }
    }
}

/// The state after tokens of orders are moved to the settlement log.
pub open spec fn settled(state: MarketState, mkt_token: bool, amount: u64) -> Result<
    MarketState,
    ErrorCode,
> {
    if mkt_token {
        match (
            crate::math::as_amount(state.mkt_order_balance - amount),
            crate::math::as_amount(state.mkt_log_balance + amount),
        ) {
            (Ok(order), Ok(log)) => Ok(
                MarketState { mkt_order_balance: order, mkt_log_balance: log, ..state },
            ),
            _ => Err(ErrorCode::Overflow),
        }
    } else {
        match (
            crate::math::as_amount(state.prc_order_balance - amount),
            crate::math::as_amount(state.prc_log_balance + amount),
        ) {
            (Ok(order), Ok(log)) => Ok(
                MarketState { prc_order_balance: order, prc_log_balance: log, ..state },
            ),
            _ => Err(ErrorCode::Overflow),
        }
    }
}

/// The state after commission comes into the vault.
pub open spec fn commissioned(state: MarketState, fee: u64) -> Result<MarketState, ErrorCode> {
    match (
        crate::math::as_amount(state.prc_vault_balance + fee),
        crate::math::as_amount(state.prc_fees_balance + fee),
    ) {
        (Ok(vault), Ok(fees)) => Ok(
            MarketState { prc_vault_balance: vault, prc_fees_balance: fees, ..state },
        ),
        _ => Err(ErrorCode::Overflow),
    }
}

/// The state after commission is kept back from the tokens of orders, which are in the vault
/// already.
pub open spec fn kept_back(state: MarketState, fee: u64) -> Result<MarketState, ErrorCode> {
    match (
        crate::math::as_amount(state.prc_order_balance - fee),
        crate::math::as_amount(state.prc_fees_balance + fee),
    ) {
        (Ok(order), Ok(fees)) => Ok(
            MarketState { prc_order_balance: order, prc_fees_balance: fees, ..state },
        ),
        _ => Err(ErrorCode::Overflow),
    }
}

/// The state with one order less on a side.
pub open spec fn one_less(state: MarketState, side: Side) -> Result<MarketState, ErrorCode> {
    match side {
        Side::Bid => match crate::math::as_amount(state.active_bid - 1) {
            Ok(n) => Ok(MarketState { active_bid: n, ..state }),
            Err(e) => Err(e),
        },
        Side::Ask => match crate::math::as_amount(state.active_ask - 1) {
            Ok(n) => Ok(MarketState { active_ask: n, ..state }),
            Err(e) => Err(e),
        },
    }
}

/// The state with one order more on a side.
pub open spec fn one_more(state: MarketState, side: Side) -> Result<MarketState, ErrorCode> {
    match side {
        Side::Bid => match crate::math::as_amount(state.active_bid + 1) {
            Ok(n) => Ok(MarketState { active_bid: n, ..state }),
            Err(e) => Err(e),
        },
        Side::Ask => match crate::math::as_amount(state.active_ask + 1) {
            Ok(n) => Ok(MarketState { active_ask: n, ..state }),
            Err(e) => Err(e),
        },
    }
}

/// The part of a ledger that a settlement changes.
#[verifier::ext_equal]
pub struct Settling {
    pub state: MarketState,
    pub log_a: LogView,
    pub log_b: LogView,
    pub events: Seq<Event>,
}

impl Settling {
    /// Tokens are added to the owner's account: in the active log, or, if that is full, in the
    /// next one, and then a new log is asked for.
    pub open spec fn credit(self, owner: Pubkey, mkt_token: bool, amount: u64, now: i64) -> Result<
        (Settling, Pubkey),
        ErrorCode,
    > {
        let id = crate::settlement::owner_id(owner);
        match self.log_a.credit(id, owner, mkt_token, amount, now) {
            Ok(log_a) => Ok((Settling { log_a, ..self }, self.log_a.key)),
            Err(ErrorCode::SettlementLogFull) => match self.log_b.credit(
                id,
                owner,
                mkt_token,
                amount,
                now,
            ) {
                Ok(log_b) => Ok(
                    (
                        Settling {
                            log_b,
                            state: MarketState { log_rollover: true, ..self.state },
                            ..self
                        },
                        self.log_b.key,
                    ),
                ),
                Err(e) => Err(e),
            },
            Err(e) => Err(e),
        }
    }

    /// Tokens of an order are moved to the account of their owner in the settlement log.
    pub open spec fn settle(self, market: Pubkey, owner: Pubkey, mkt_token: bool, amount: u64, now: i64) -> Result<
        Settling,
        ErrorCode,
    > {
        match self.credit(owner, mkt_token, amount, now) {
            Err(e) => Err(e),
            Ok((credited, log)) => match settled(credited.state, mkt_token, amount) {
                Err(e) => Err(e),
                Ok(state) => Ok(
                    Settling {
                        state,
                        events: credited.events.push(
                            Event::Settle(
                                SettleEvent {
                                    event_type: SETTLE_EVENT,
                                    action_id: state.action_counter,
                                    market,
                                    owner,
                                    settlement_log: log,
                                    market_tokens: if mkt_token {
                                        amount
                                    } else {
                                        0
                                    },
                                    pricing_tokens: if mkt_token {
                                        0
                                    } else {
                                        amount
                                    },
                                },
                            ),
                        ),
                        ..credited
                    },
                ),
            },
        }
    }
}

impl Ledger {
    pub open spec fn side(self, side: Side) -> Map<u128, Kept<Order>> {
        match side {
            Side::Bid => self.bids,
            Side::Ask => self.asks,
        }
    }

    pub open spec fn slots(self, side: Side) -> nat {
        match side {
            Side::Bid => self.bid_slots,
            Side::Ask => self.ask_slots,
        }
    }

    pub open spec fn with_side(self, side: Side, orders: Map<u128, Kept<Order>>) -> Ledger {
        match side {
            Side::Bid => Ledger { bids: orders, ..self },
            Side::Ask => Ledger { asks: orders, ..self },
        }
    }

    pub open spec fn with_state(self, state: MarketState) -> Ledger {
        Ledger { state, ..self }
    }

    pub open spec fn reporting(self, event: Event) -> Ledger {
        Ledger { events: self.events.push(event), ..self }
    }

    pub open spec fn settling(self) -> Settling {
        Settling { state: self.state, log_a: self.log_a, log_b: self.log_b, events: self.events }
    }

    pub open spec fn with_settling(self, s: Settling) -> Ledger {
        Ledger { state: s.state, log_a: s.log_a, log_b: s.log_b, events: s.events, ..self }
    }

    /// Tokens of an order are moved to the account of their owner in the settlement log.
    pub open spec fn settle(self, market: Pubkey, owner: Pubkey, mkt_token: bool, amount: u64, now: i64) -> Result<
        Ledger,
        ErrorCode,
    > {
        match self.settling().settle(market, owner, mkt_token, amount, now) {
            Err(e) => Err(e),
            Ok(s) => Ok(self.with_settling(s)),
        }
    }

    /// A trade is logged and reported.
    pub open spec fn logged(self, taker: Taker, fill: Fill) -> Result<Ledger, ErrorCode> {
        let entry = TradeEntry {
            event_type: fill.event_type,
            action_id: self.state.action_counter,
            trade_id: 0,
            maker_order_id: fill.key,
            maker_filled: fill.maker_filled,
            maker: fill.owner,
            taker: taker.user,
            taker_side: taker.side.spec_code(),
            amount: fill.quantity,
            price: fill.price,
            ts: taker.now,
        };
        match self.trades.record(entry) {
            Err(e) => Err(e),
            Ok(trades) => Ok(
                (Ledger { trades, ..self }).reporting(
                    Event::Match(
                        MatchEvent {
                            event_type: fill.event_type,
                            action_id: self.state.action_counter,
                            trade_id: trades.count,
                            market: taker.market,
                            maker_order_id: fill.key,
                            maker_filled: fill.maker_filled,
                            maker: fill.owner,
                            taker: taker.user,
                            taker_side: taker.side.spec_code(),
                            amount: fill.quantity,
                            price: fill.price,
                            ts: taker.now,
                        },
                    ),
                ),
            ),
        }
    }

    /// An order leaves the book.
    pub open spec fn taken_off(self, side: Side, key: u128) -> Result<Ledger, ErrorCode> {
        match one_less(self.state, side) {
            Err(e) => Err(e),
            Ok(state) => Ok(self.with_state(state).with_side(side, self.side(side).remove(key))),
        }
    }

    /// The posted order of a fill leaves the book, or what is filled is taken from it.
    pub open spec fn reduced(self, side: Side, fill: Fill) -> Result<Ledger, ErrorCode> {
        if fill.maker_filled {
            self.taken_off(side, fill.key)
        } else {
            let kept = self.side(side)[fill.key];
            match crate::math::as_amount(kept.value.amount - fill.quantity) {
                Err(e) => Err(e),
                Ok(amount) => Ok(
                    self.with_side(
                        side,
                        self.side(side).insert(
                            fill.key,
                            Kept { owner: kept.owner, value: Order { amount, ..kept.value } },
                        ),
                    ),
                ),
            }
        }
    }

    /// One fill: it is logged, the posted order is reduced, what the taker pays comes into the
    /// vault, and the maker is settled.
    pub open spec fn filled(self, taker: Taker, fill: Fill) -> Result<Ledger, ErrorCode> {
        match self.logged(taker, fill) {
            Err(e) => Err(e),
            Ok(logged) => match logged.reduced(taker.side.spec_opposite(), fill) {
                Err(e) => Err(e),
                Ok(reduced) => {
                    let paid = if taker.pays_by_fill {
                        deposited(reduced.state, taker.pays_market_tokens(), taker.price_of(fill))
                    } else {
                        Ok(reduced.state)
                    };
                    match paid {
                        Err(e) => Err(e),
                        Ok(state) => reduced.with_state(
                            MarketState { last_price: fill.price, last_ts: taker.now, ..state },
                        ).settle(
                            taker.market,
                            fill.owner,
                            taker.pays_market_tokens(),
                            taker.price_of(fill),
                            taker.now,
                        ),
                    }
                },
            },
        }
    }

    /// Matches an order with the posted orders from place `i` on: expired ones and the taker's own
    /// are passed by, the others filled until the order is done or the price is beyond its limit.
    pub open spec fn walk(
        self,
        taker: Taker,
        tally: Tally,
        keys: Seq<u128>,
        i: int,
        expired: Seq<u128>,
    ) -> Result<Walked, ErrorCode>
        decreases keys.len() - i,
    {
        if i < 0 || i >= keys.len() {
            Ok(Walked { ledger: self, tally, expired })
        } else {
            let key = keys[i];
            let kept = self.side(taker.side.spec_opposite())[key];
            if is_expired(kept.value, taker.now) {
                self.walk(taker, tally, keys, i + 1, expired.push(key))
            } else if kept.owner == taker.user {
                self.walk(taker, tally, keys, i + 1, expired)
            } else if !within_limit(taker.side, taker.limit, crate::order_book::key_price(key)) {
                Ok(Walked { ledger: self, tally, expired })
            } else {
                match taker.fill(tally, key, kept) {
                    Err(e) => Err(e),
                    Ok(fill) => match taker.tallied(tally, fill) {
                        Err(e) => Err(e),
                        Ok(next) => {
                            let after = if taker.preview {
                                Ok(self)
                            } else {
                                self.filled(taker, fill)
                            };
                            match after {
                                Err(e) => Err(e),
                                Ok(ledger) => if fill.last {
                                    Ok(Walked { ledger, tally: next, expired })
                                } else {
                                    ledger.walk(taker, next, keys, i + 1, expired)
                                },
                            }
                        },
                    },
                }
            }
        }
    }

    /// Matches an order with all posted orders of the other side.
    #[verifier::opaque]
    pub open spec fn matched(self, taker: Taker, to_fill: u64) -> Result<Walked, ErrorCode> {
        self.walk(
            taker,
            Tally { to_fill, filled: 0, paid: 0, fee: 0 },
            best_first(taker.side.spec_opposite(), self.side(taker.side.spec_opposite())),
            0,
            Seq::empty(),
        )
    }

    /// What a posted order holds: market tokens for an ask, pricing tokens for a bid.
    pub open spec fn held_by(side: Side, key: u128, order: Order, factor: u64) -> Result<u64, ErrorCode> {
        match side {
            Side::Bid => crate::math::cost(order.amount, crate::order_book::key_price(key), factor),
            Side::Ask => Ok(order.amount),
        }
    }

    /// A posted order leaves the book and its tokens go to its owner's account.
    pub open spec fn returned(self, market: Pubkey, side: Side, key: u128, tokens: u64, now: i64) -> Result<
        Ledger,
        ErrorCode,
    > {
        match self.settle(market, self.side(side)[key].owner, side == Side::Ask, tokens, now) {
            Err(e) => Err(e),
            Ok(ledger) => ledger.taken_off(side, key),
        }
    }

    /// An expired order is reported and returned.
    pub open spec fn expired_one(self, market: Pubkey, side: Side, key: u128, factor: u64, now: i64) -> Result<
        Ledger,
        ErrorCode,
    > {
        let kept = self.side(side)[key];
        match Self::held_by(side, key, kept.value, factor) {
            Err(e) => Err(e),
            Ok(tokens) => self.reporting(
                Event::Expire(
                    ExpireEvent {
                        event_type: EXPIRE_EVENT,
                        action_id: self.state.action_counter,
                        market,
                        owner: kept.owner,
                        order_side: side.spec_code(),
                        order_id: key,
                        price: crate::order_book::key_price(key),
                        quantity: kept.value.amount,
                        tokens,
                    },
                ),
            ).returned(market, side, key, tokens, now),
        }
    }

    /// Expired orders are removed, the last that was met first, a limited number of them.
    pub open spec fn swept(self, taker: Taker, expired: Seq<u128>, count: nat) -> Result<Ledger, ErrorCode>
        decreases expired.len(),
    {
        if expired.len() == 0 || count >= MAX_EXPIRATIONS {
            Ok(self)
        } else {
            match self.expired_one(
                taker.market,
                taker.side.spec_opposite(),
                expired.last(),
                taker.factor,
                taker.now,
            ) {
                Err(e) => Err(e),
                Ok(ledger) => ledger.swept(taker, expired.drop_last(), count + 1),
            }
        }
    }

    /// The key of the order that comes last on a side.
    pub open spec fn worst(self, side: Side) -> u128 {
        best_first(side, self.side(side)).last()
    }

    /// Whether a side takes one more order.
    pub open spec fn has_room(self, side: Side) -> bool {
        SlabPageAlloc::takes_one_more(self.side(side).len(), self.slots(side))
    }

    /// Room is made for an order on a full side: the last order there is returned to its owner, if
    /// the new price is better.
    pub open spec fn evicted(self, taker: Taker, price: u64) -> Result<Ledger, ErrorCode> {
        let key = self.worst(taker.side);
        let last_price = crate::order_book::key_price(key);
        let better = match taker.side {
            Side::Bid => price > last_price,
            Side::Ask => price < last_price,
        };
        if !better {
            Err(ErrorCode::OrderbookFull)
        } else {
            match Self::held_by(taker.side, key, self.side(taker.side)[key].value, taker.factor) {
                Err(e) => Err(e),
                Ok(tokens) => self.returned(taker.market, taker.side, key, tokens, taker.now),
            }
        }
    }

    /// An order is posted: it takes the next number, and on a full side the place of the last
    /// order.
    #[verifier::opaque]
    pub open spec fn posted(self, taker: Taker, price: u64, order: Order) -> Result<Ledger, ErrorCode> {
        let key = crate::order_book::order_key(taker.side, price, self.state.order_counter);
        let numbered = self.with_state(
            MarketState { order_counter: (self.state.order_counter + 1) as u64, ..self.state },
        );
        let roomy = if numbered.has_room(taker.side) {
            Ok(numbered)
        } else {
            numbered.evicted(taker, price)
        };
        match roomy {
            Err(e) => Err(e),
            Ok(ledger) => match one_more(ledger.state, taker.side) {
                Err(e) => Err(e),
                Ok(state) => Ok(
                    ledger.with_state(state).with_side(
                        taker.side,
                        ledger.side(taker.side).insert(key, Kept { owner: taker.user, value: order }),
                    ),
                ),
            },
        }
    }

    /// Whether every order has a number that was given out: no new order takes the key of another.
    pub open spec fn numbered(self) -> bool {
        forall|side: Side, key: u128| #[trigger]
            self.side(side).contains_key(key) ==> key_number(side, key) < self.state.order_counter
    }
}

/// The number of the order with a key.
pub open spec fn key_number(side: Side, key: u128) -> u64 {
    match side {
        Side::Bid => !(key as u64),
        Side::Ask => key as u64,
    }
}

/// Price and number come back from a key.
pub proof fn lemma_order_key(side: Side, price: u64, seq: u64)
    ensures
        crate::order_book::key_price(crate::order_book::order_key(side, price, seq)) == price,
        key_number(side, crate::order_book::order_key(side, price, seq)) == seq,
{
    let inv: u64 = !seq;
    assert(((((price as u128) << 64) | (seq as u128)) >> 64) as u64 == price) by (bit_vector);
    assert((((price as u128) << 64) | (seq as u128)) as u64 == seq) by (bit_vector);
    assert(((((price as u128) << 64) | (inv as u128)) >> 64) as u64 == price) by (bit_vector);
    assert((((price as u128) << 64) | (inv as u128)) as u64 == inv) by (bit_vector);
    assert(!(!seq) == seq) by (bit_vector);
}

} // verus!
