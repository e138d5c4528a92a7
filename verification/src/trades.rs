//! What the trades of an order do, told from the trades that are reported: who is paid how much,
//! what is left of the orders that were matched, and what the order comes to.
use crate::ledger::{Fill, Ledger, Settling, Taker, Tally};
use crate::market::{Event, MarketState, MatchEvent, SettleEvent, Side};
use crate::pubkey::Pubkey;
use crate::records::{Order, TradeEntry};
use crate::settlement::LogView;
use crate::shelf::Kept;
use vstd::prelude::*;

verus! {

/// The trades among events.
pub open spec fn trades_in(events: Seq<Event>) -> Seq<MatchEvent>
    decreases events.len(),
{
    if events.len() == 0 {
        Seq::empty()
    } else {
        match events.last() {
            Event::Match(trade) => trades_in(events.drop_last()).push(trade),
            _ => trades_in(events.drop_last()),
        }
    }
}

/// The trades that are reported in `after` and not yet in `before`.
pub open spec fn trades_since(before: Seq<Event>, after: Seq<Event>) -> Seq<MatchEvent> {
    trades_in(after.skip(before.len() as int))
}

/// The market tokens that change hands.
pub open spec fn market_tokens(trades: Seq<MatchEvent>) -> int
    decreases trades.len(),
{
    if trades.len() == 0 {
        0
    } else {
        market_tokens(trades.drop_last()) + trades.last().amount
    }
}

/// The pricing tokens that change hands: for each trade its amount at its price per `factor`
/// tokens, rounded down. An order for a net price spends what is left of it on the trade that does
/// not use up the order it is made with.
pub open spec fn pricing_tokens(trades: Seq<MatchEvent>, factor: int, net: Option<u64>) -> int
    decreases trades.len(),
{
    if trades.len() == 0 {
        0
    } else {
        let before = pricing_tokens(trades.drop_last(), factor, net);
        let trade = trades.last();
        match net {
            Some(price) if !trade.maker_filled => price as int,
            _ => before + (trade.amount as int * trade.price as int) / factor,
        }
    }
}

/// The pricing tokens of the last trade.
pub open spec fn last_tokens(trades: Seq<MatchEvent>, factor: int, net: Option<u64>) -> int {
    pricing_tokens(trades, factor, net) - pricing_tokens(trades.drop_last(), factor, net)
}

/// The commission on trades: on each of them `rate` ten millionths, rounded down.
pub open spec fn fees(trades: Seq<MatchEvent>, factor: int, net: Option<u64>, rate: u32) -> int
    decreases trades.len(),
{
    if trades.len() == 0 {
        0
    } else {
        fees(trades.drop_last(), factor, net, rate) + (last_tokens(trades, factor, net) * rate as int)
            / 10000000
    }
}

/// The place of an owner's account in a settlement log.
pub open spec fn account_of(owner: Pubkey) -> u128 {
    crate::hash::murmur3_128(owner.bytes@, 0)
}

/// What the trades bring to an account: the makers get pricing tokens from a bid and market tokens
/// from an ask.
pub open spec fn earned(trades: Seq<MatchEvent>, factor: int, net: Option<u64>, side: Side, id: u128) -> int
    decreases trades.len(),
{
    if trades.len() == 0 {
        0
    } else {
        earned(trades.drop_last(), factor, net, side, id) + if account_of(trades.last().maker) == id {
            match side {
                Side::Bid => last_tokens(trades, factor, net),
                Side::Ask => trades.last().amount as int,
            }
        } else {
            0
        }
    }
}

/// The number of orders that the trades use up.
pub open spec fn used_up(trades: Seq<MatchEvent>) -> int
    decreases trades.len(),
{
    if trades.len() == 0 {
        0
    } else {
        used_up(trades.drop_last()) + if trades.last().maker_filled {
            1int
        } else {
            0
        }
    }
}

/// What an account in a log holds of one of the two tokens.
pub open spec fn held(log: LogView, id: u128, mkt_token: bool) -> int {
    if !log.entries.contains_key(id) {
        0
    } else if mkt_token {
        log.entries[id].value.mkt_token_balance as int
    } else {
        log.entries[id].value.prc_token_balance as int
    }
}

/// What an account holds in two logs together.
pub open spec fn held_in(log_a: LogView, log_b: LogView, id: u128, mkt_token: bool) -> int {
    held(log_a, id, mkt_token) + held(log_b, id, mkt_token)
}

/// Whether two logs are as they were, but for one account, which has `amount` more of one token.
pub open spec fn only_gains(
    log_a: LogView,
    log_b: LogView,
    after_a: LogView,
    after_b: LogView,
    id: u128,
    mkt_token: bool,
    amount: int,
) -> bool {
    &&& forall|i: u128, m: bool| #[trigger]
        held_in(after_a, after_b, i, m) == held_in(log_a, log_b, i, m) + if i == id && m == mkt_token {
            amount
        } else {
            0
        }
    &&& same_log(log_a, after_a)
    &&& same_log(log_b, after_b)
}

/// Whether a log has the same key, place in the chain and size, and accounts that were there are
/// there still, with the same owners.
pub open spec fn same_log(log: LogView, after: LogView) -> bool {
    &&& after.key == log.key
    &&& after.slots == log.slots
    &&& after.header.market == log.header.market
    &&& after.header.prev == log.header.prev
    &&& after.header.next == log.header.next
    &&& after.header.items - log.header.items == after.entries.len() - log.entries.len()
    &&& log.entries.dom().finite() ==> after.entries.dom().finite()
    &&& forall|i: u128| #[trigger]
        log.entries.contains_key(i) ==> after.entries.contains_key(i) && after.entries[i].owner
            == log.entries[i].owner
}

/// Whether an account that is in a log and was not is one that was opened for `owner`.
pub open spec fn opened_for(log: LogView, after: LogView, owner: Pubkey, now: i64) -> bool {
    forall|i: u128| #[trigger]
        after.entries.contains_key(i) && !log.entries.contains_key(i) ==> i == account_of(owner)
            && after.entries[i].owner == owner && after.entries[i].value.ts_updated == now
}

impl Settling {
    /// What a settlement does to the logs, the totals and the events: the tokens go to the active log
    /// if it has an account of the owner or room for one, else to the next one, and then a new log is
    /// asked for.
    pub open spec fn pays(self, after: Settling, market: Pubkey, owner: Pubkey, mkt_token: bool, amount: u64, now: i64) -> bool {
        let active = self.log_a.entries.contains_key(account_of(owner)) || 2 * self.log_a.entries.len()
            + 1 <= self.log_a.slots;
        &&& only_gains(
            self.log_a,
            self.log_b,
            after.log_a,
            after.log_b,
            account_of(owner),
            mkt_token,
            amount as int,
        )
        &&& active ==> after.log_b == self.log_b
        &&& !active ==> after.log_a == self.log_a
        &&& opened_for(self.log_a, after.log_a, owner, now)
        &&& opened_for(self.log_b, after.log_b, owner, now)
        &&& after.state == (MarketState {
            log_rollover: self.state.log_rollover || !active,
            mkt_order_balance: if mkt_token {
                (self.state.mkt_order_balance - amount) as u64
            } else {
                self.state.mkt_order_balance
            },
            mkt_log_balance: if mkt_token {
                (self.state.mkt_log_balance + amount) as u64
            } else {
                self.state.mkt_log_balance
            },
            prc_order_balance: if mkt_token {
                self.state.prc_order_balance
            } else {
                (self.state.prc_order_balance - amount) as u64
            },
            prc_log_balance: if mkt_token {
                self.state.prc_log_balance
            } else {
                (self.state.prc_log_balance + amount) as u64
            },
            ..self.state
        })
        &&& mkt_token ==> amount <= self.state.mkt_order_balance && self.state.mkt_log_balance + amount
            <= u64::MAX
        &&& !mkt_token ==> amount <= self.state.prc_order_balance && self.state.prc_log_balance + amount
            <= u64::MAX
        &&& after.events == self.events.push(
            Event::Settle(
                SettleEvent {
                    event_type: 33111472894808803319726137140961827977,
                    action_id: self.state.action_counter,
                    market,
                    owner,
                    settlement_log: if active {
                        self.log_a.key
                    } else {
                        self.log_b.key
                    },
                    market_tokens: if mkt_token {
                        amount
                    } else {
                        0
                    },
                    pricing_tokens: if mkt_token {
                        0
                    } else {
                        amount
                    },
                },
            ),
        )
    }

    /// A settlement goes through exactly where one of the logs can take the tokens, the second only
    /// where the first is full, and the totals can.
    #[verifier::rlimit(30)]
    pub proof fn law_settlement_goes_through(self, market: Pubkey, owner: Pubkey, mkt_token: bool, amount: u64, now: i64)
        ensures
            self.settle(market, owner, mkt_token, amount, now) is Ok <==> {
                let id = account_of(owner);
                let active = self.log_a.entries.contains_key(id) || 2 * self.log_a.entries.len() + 1
                    <= self.log_a.slots;
                let log = if active {
                    self.log_a
                } else {
                    self.log_b
                };
                let s = self.state;
                &&& log.entries.contains_key(id) ==> held(log, id, mkt_token) + amount <= u64::MAX
                &&& !log.entries.contains_key(id) ==> 2 * log.entries.len() + 1 <= log.slots
                    && log.header.items < u32::MAX
                &&& mkt_token ==> amount <= s.mkt_order_balance && s.mkt_log_balance + amount <= u64::MAX
                &&& !mkt_token ==> amount <= s.prc_order_balance && s.prc_log_balance + amount <= u64::MAX
            },
    {
    }

    /// A settlement adds the tokens to the owner's account in one of the two logs, to no other, and
    /// moves them from the total of the orders to that of the logs.
    #[verifier::rlimit(60)]
    pub proof fn law_settlement(self, market: Pubkey, owner: Pubkey, mkt_token: bool, amount: u64, now: i64)
        requires
            self.log_a.entries.dom().finite(),
            self.log_b.entries.dom().finite(),
        ensures
            self.settle(market, owner, mkt_token, amount, now) matches Ok(after) ==> self.pays(
                after,
                market,
                owner,
                mkt_token,
                amount,
                now,
            ),
    {
        if self.settle(market, owner, mkt_token, amount, now) is Ok {
            let after = self.settle(market, owner, mkt_token, amount, now)->Ok_0;
            let id = account_of(owner);
            lemma_credit(self.log_a, id, owner, mkt_token, amount, now);
            lemma_credit(self.log_b, id, owner, mkt_token, amount, now);
            assert forall|i: u128, m: bool| #[trigger]
                held_in(after.log_a, after.log_b, i, m) == held_in(self.log_a, self.log_b, i, m)
                    + if i == id && m == mkt_token {
                    amount as int
                } else {
                    0
                } by {
                assert(held(self.log_a, i, m) == held(self.log_a, i, m));
                assert(held(after.log_a, i, m) == held(after.log_a, i, m));
                assert(held(self.log_b, i, m) == held(self.log_b, i, m));
                assert(held(after.log_b, i, m) == held(after.log_b, i, m));
            }
        }
    }
}

#[verifier::rlimit(30)]
proof fn lemma_credit(log: LogView, id: u128, owner: Pubkey, mkt_token: bool, amount: u64, now: i64)
    requires
        id == account_of(owner),
        log.entries.dom().finite(),
    ensures
        log.credit(id, owner, mkt_token, amount, now) matches Ok(after) ==> {
            &&& forall|i: u128, m: bool| #[trigger]
                held(after, i, m) == held(log, i, m) + if i == id && m == mkt_token {
                    amount as int
                } else {
                    0
                }
            &&& same_log(log, after)
            &&& opened_for(log, after, owner, now)
        },
        same_log(log, log),
{
    if log.credit(id, owner, mkt_token, amount, now) is Ok {
        let after = log.credit(id, owner, mkt_token, amount, now)->Ok_0;
        assert(after.entries.dom() =~= log.entries.dom().insert(id));
        assert(after.entries.contains_key(id));
    }
}

impl Taker {
    /// What an order for a net price may spend; an order for a quantity has no such bound.
    pub open spec fn net(self, to_fill: u64) -> Option<u64> {
        if self.by_quantity {
            None
        } else {
            Some(to_fill)
        }
    }

    pub open spec fn kinds(self) -> Kinds {
        Kinds { exact: self.exact_event, entire: self.entire_event, partial: self.partial_event }
    }
}

impl Ledger {
    /// The orders that an order of a side is matched with.
    pub open spec fn across(self, side: Side) -> Map<u128, Kept<Order>> {
        match side {
            Side::Bid => self.asks,
            Side::Ask => self.bids,
        }
    }

    /// The orders of a side.
    pub open spec fn along(self, side: Side) -> Map<u128, Kept<Order>> {
        match side {
            Side::Bid => self.bids,
            Side::Ask => self.asks,
        }
    }

    /// Whether the accounts in the settlement logs are finitely many, and the trade log has a place
    /// for each trade that it keeps.
    pub open spec fn has_logs(self) -> bool {
        &&& self.log_a.entries.dom().finite()
        &&& self.log_b.entries.dom().finite()
        &&& 0 < self.trades.max <= self.trades.entries.len()
    }

    /// Whether a trade of a user is with an order of someone else on the other side that has not
    /// expired, at the price of that order and not beyond the limit, for no more than the order has,
    /// and is reported as it is.
    pub open spec fn can_trade(
        self,
        market: Pubkey,
        user: Pubkey,
        side: Side,
        limit: Option<u64>,
        action: int,
        now: i64,
        trade: MatchEvent,
    ) -> bool {
        let posted = self.across(side)[trade.maker_order_id];
        &&& self.across(side).contains_key(trade.maker_order_id)
        &&& trade.maker == posted.owner
        &&& trade.maker != user
        &&& trade.taker == user
        &&& trade.taker_side == match side {
            Side::Bid => 0u8,
            Side::Ask => 1u8,
        }
        &&& trade.market == market
        &&& trade.action_id == action
        &&& trade.ts == now
        &&& trade.price == (trade.maker_order_id >> 64) as u64
        &&& limit matches Some(price) ==> match side {
            Side::Bid => trade.price <= price,
            Side::Ask => trade.price >= price,
        }
        &&& posted.value.expiry == 0 || posted.value.expiry > now
        &&& trade.amount <= posted.value.amount
        &&& trade.maker_filled ==> trade.amount == posted.value.amount
    }

    /// Whether the trades are numbered one after the other, each with another order.
    pub open spec fn numbers(self, trades: Seq<MatchEvent>) -> bool {
        &&& forall|k: int|
            0 <= k < trades.len() ==> (#[trigger] trades[k]).trade_id == self.trades.count + k + 1
        &&& forall|j: int, k: int|
            0 <= j < k < trades.len() ==> (#[trigger] trades[j]).maker_order_id != (
            #[trigger] trades[k]).maker_order_id
    }

    /// Whether each trade has taken its amount from the order that it was made with, and all other
    /// orders are as they were.
    pub open spec fn yields(self, after: Ledger, side: Side, trades: Seq<MatchEvent>) -> bool {
        &&& after.along(side) == self.along(side)
        &&& forall|key: u128| #[trigger]
            after.across(side).contains_key(key) ==> self.across(side).contains_key(key)
        &&& forall|key: u128| #[trigger]
            self.across(side).contains_key(key) && (forall|k: int|
                0 <= k < trades.len() ==> (#[trigger] trades[k]).maker_order_id != key)
                ==> after.across(side).contains_key(key) && after.across(side)[key] == self.across(
                side,
            )[key]
        &&& forall|k: int|
            0 <= k < trades.len() ==> {
                let key = (#[trigger] trades[k]).maker_order_id;
                let left = after.across(side)[key];
                &&& trades[k].maker_filled <==> !after.across(side).contains_key(key)
                &&& !trades[k].maker_filled ==> left.owner == self.across(side)[key].owner
                    && left.value.expiry == self.across(side)[key].value.expiry && left.value.amount
                    == self.across(side)[key].value.amount - trades[k].amount
            }
    }

    /// Whether the makers of the trades have got what the taker gives for them, each in the own
    /// account, and no other account has changed.
    pub open spec fn pays_makers(
        self,
        after: Ledger,
        side: Side,
        factor: int,
        net: Option<u64>,
        trades: Seq<MatchEvent>,
    ) -> bool {
        &&& forall|id: u128, mkt_token: bool| #[trigger]
            held_in(after.log_a, after.log_b, id, mkt_token) == held_in(
                self.log_a,
                self.log_b,
                id,
                mkt_token,
            ) + if mkt_token == (side == Side::Ask) {
                earned(trades, factor, net, side, id)
            } else {
                0
            }
        &&& same_log(self.log_a, after.log_a)
        &&& same_log(self.log_b, after.log_b)
    }

    /// Whether the trades have moved the tokens that the taker gives from the total of the orders to
    /// that of the logs, where they came in with the trades if `by_trade` says so.
    pub open spec fn moves_totals(
        self,
        after: Ledger,
        side: Side,
        by_trade: bool,
        factor: int,
        net: Option<u64>,
        trades: Seq<MatchEvent>,
    ) -> bool {
        let given = match side {
            Side::Bid => pricing_tokens(trades, factor, net),
            Side::Ask => market_tokens(trades),
        };
        let came_in = if by_trade {
            given
        } else {
            0
        };
        let s = self.state;
        let e = after.state;
        &&& side == Side::Bid ==> {
            &&& e.prc_vault_balance == s.prc_vault_balance + came_in
            &&& e.prc_order_balance == s.prc_order_balance + came_in - given
            &&& e.prc_log_balance == s.prc_log_balance + given
            &&& e.mkt_vault_balance == s.mkt_vault_balance
            &&& e.mkt_order_balance == s.mkt_order_balance
            &&& e.mkt_log_balance == s.mkt_log_balance
            &&& e.active_ask == s.active_ask - used_up(trades)
            &&& e.active_bid == s.active_bid
        }
        &&& side == Side::Ask ==> {
            &&& e.mkt_vault_balance == s.mkt_vault_balance + came_in
            &&& e.mkt_order_balance == s.mkt_order_balance + came_in - given
            &&& e.mkt_log_balance == s.mkt_log_balance + given
            &&& e.prc_vault_balance == s.prc_vault_balance
            &&& e.prc_order_balance == s.prc_order_balance
            &&& e.prc_log_balance == s.prc_log_balance
            &&& e.active_bid == s.active_bid - used_up(trades)
            &&& e.active_ask == s.active_ask
        }
        &&& trades.len() == 0 ==> e.last_price == s.last_price && e.last_ts == s.last_ts
        &&& trades.len() > 0 ==> e.last_price == trades.last().price && e.last_ts == trades.last().ts
        &&& e.settle_a == s.settle_a
        &&& e.settle_b == s.settle_b
        &&& s.log_rollover ==> e.log_rollover
        &&& e.log_deposit_balance == s.log_deposit_balance
        &&& e.action_counter == s.action_counter
        &&& e.trade_counter == s.trade_counter
        &&& e.order_counter == s.order_counter
        &&& e.mkt_user_vault_balance == s.mkt_user_vault_balance
        &&& e.prc_user_vault_balance == s.prc_user_vault_balance
        &&& e.prc_fees_balance == s.prc_fees_balance
    }

    /// Whether each trade is reported, and after it what its maker gets.
    pub open spec fn tells(
        self,
        after: Ledger,
        market: Pubkey,
        side: Side,
        factor: int,
        net: Option<u64>,
        trades: Seq<MatchEvent>,
    ) -> bool {
        let start = self.events.len();
        &&& after.events.len() == start + 2 * trades.len()
        &&& forall|k: int| 0 <= k < start ==> #[trigger] after.events[k] == self.events[k]
        &&& forall|k: int|
            0 <= k < trades.len() ==> self.tells_one(
                after.events[start + 2 * k],
                after.events[start + 2 * k + 1],
                market,
                side,
                last_tokens(trades.take(k + 1), factor, net),
                #[trigger] trades[k],
            )
    }

    /// Whether two events are those of a trade and of what its maker gets.
    pub open spec fn tells_one(
        self,
        first: Event,
        second: Event,
        market: Pubkey,
        side: Side,
        tokens: int,
        trade: MatchEvent,
    ) -> bool {
        &&& first == Event::Match(trade)
        &&& second is Settle
        &&& second->Settle_0.event_type == 33111472894808803319726137140961827977
        &&& second->Settle_0.action_id == trade.action_id
        &&& second->Settle_0.market == market
        &&& second->Settle_0.owner == trade.maker
        &&& second->Settle_0.settlement_log == self.log_a.key || second->Settle_0.settlement_log
            == self.log_b.key
        &&& side == Side::Bid ==> second->Settle_0.market_tokens == 0
            && second->Settle_0.pricing_tokens == tokens
        &&& side == Side::Ask ==> second->Settle_0.market_tokens == trade.amount
            && second->Settle_0.pricing_tokens == 0
    }

    /// Whether the trade log has the trades behind those that were there, as many as it keeps.
    pub open spec fn keeps_trades(self, after: Ledger, trades: Seq<MatchEvent>) -> bool {
        let max = self.trades.max as int;
        &&& after.trades.count == self.trades.count + trades.len()
        &&& after.trades.max == self.trades.max
        &&& after.trades.entries.len() == self.trades.entries.len()
        &&& forall|k: int|
            0 <= k < trades.len() && trades.len() - k <= max ==> is_entry_of(
                after.trades.entries[(self.trades.count + k) % max],
                #[trigger] trades[k],
            )
    }
}

/// The numbers that tell trades apart by how far they fill the two orders.
pub struct Kinds {
    /// Both orders are filled.
    pub exact: u128,
    /// The posted order is filled, the other not.
    pub entire: u128,
    /// The posted order is not filled.
    pub partial: u128,
}

/// Whether trades come to what was to be filled.
pub open spec fn is_done(trades: Seq<MatchEvent>, factor: int, to_fill: u64, by_quantity: bool) -> bool {
    if by_quantity {
        market_tokens(trades) == to_fill
    } else {
        pricing_tokens(trades, factor, Some(to_fill)) == to_fill
    }
}

/// Whether the last of some trades is of the kind that it is reported as. One that does not use up
/// the order that it is made with fills the other; for a net price it is for as much as the rest of
/// that buys, rounded down.
pub open spec fn is_of_kind(trades: Seq<MatchEvent>, factor: int, to_fill: u64, by_quantity: bool, kinds: Kinds) -> bool {
    let trade = trades.last();
    let done = is_done(trades, factor, to_fill, by_quantity);
    &&& !trade.maker_filled ==> done
    &&& !trade.maker_filled && !by_quantity ==> trade.amount == (last_tokens(
        trades,
        factor,
        Some(to_fill),
    ) * factor) / trade.price as int
    &&& trade.event_type == if !trade.maker_filled {
        kinds.partial
    } else if done {
        kinds.exact
    } else {
        kinds.entire
    }
}

/// Whether each trade is of its kind, and none is made once the order is filled.
pub open spec fn fill_in_turn(trades: Seq<MatchEvent>, factor: int, to_fill: u64, by_quantity: bool, kinds: Kinds) -> bool {
    forall|k: int|
        #![trigger trades[k]]
        0 <= k < trades.len() ==> is_of_kind(trades.take(k + 1), factor, to_fill, by_quantity, kinds) && (k
            < trades.len() - 1 ==> !is_done(trades.take(k + 1), factor, to_fill, by_quantity))
}

proof fn lemma_fill_in_turn(trades: Seq<MatchEvent>, trade: MatchEvent, factor: int, to_fill: u64, by_quantity: bool, kinds: Kinds)
    requires
        fill_in_turn(trades, factor, to_fill, by_quantity, kinds),
        trades.len() > 0 ==> !is_done(trades, factor, to_fill, by_quantity),
        is_of_kind(trades.push(trade), factor, to_fill, by_quantity, kinds),
    ensures
        fill_in_turn(trades.push(trade), factor, to_fill, by_quantity, kinds),
{
    let more = trades.push(trade);
    let n = trades.len() as int;
    assert(more.take(n + 1) =~= more);
    assert(trades.take(n) =~= trades);
    assert forall|k: int|
        #![trigger more[k]]
        0 <= k < more.len() implies is_of_kind(more.take(k + 1), factor, to_fill, by_quantity, kinds) && (k
        < more.len() - 1 ==> !is_done(more.take(k + 1), factor, to_fill, by_quantity)) by {
        if k < n {
            assert(more[k] == trades[k]);
            assert(more.take(k + 1) =~= trades.take(k + 1));
        }
    }
}

/// Whether an entry of the trade log is that of a trade.
pub open spec fn is_entry_of(entry: TradeEntry, trade: MatchEvent) -> bool {
    &&& entry.event_type == trade.event_type
    &&& entry.action_id == trade.action_id
    &&& entry.trade_id == trade.trade_id
    &&& entry.maker_order_id == trade.maker_order_id
    &&& entry.maker_filled == trade.maker_filled
    &&& entry.maker == trade.maker
    &&& entry.taker == trade.taker
    &&& entry.taker_side == trade.taker_side
    &&& entry.amount == trade.amount
    &&& entry.price == trade.price
    &&& entry.ts == trade.ts
}

/// The report of a fill.
spec fn trade_of(ledger: Ledger, taker: Taker, fill: Fill) -> MatchEvent {
    MatchEvent {
        event_type: fill.event_type,
        action_id: ledger.state.action_counter,
        trade_id: (ledger.trades.count + 1) as u64,
        market: taker.market,
        maker_order_id: fill.key,
        maker_filled: fill.maker_filled,
        maker: fill.owner,
        taker: taker.user,
        taker_side: taker.side.spec_code(),
        amount: fill.quantity,
        price: fill.price,
        ts: taker.now,
    }
}

/// The tokens that the taker gives for a fill.
spec fn given_for(taker: Taker, fill: Fill) -> u64 {
    match taker.side {
        Side::Bid => fill.tokens,
        Side::Ask => fill.quantity,
    }
}

impl Ledger {
    /// What one fill does.
    spec fn takes_one(self, taker: Taker, fill: Fill, after: Ledger) -> bool {
        let given = given_for(taker, fill);
        let ask = taker.side == Side::Ask;
        let s = self.state;
        let e = after.state;
        &&& only_gains(
            self.log_a,
            self.log_b,
            after.log_a,
            after.log_b,
            account_of(fill.owner),
            ask,
            given as int,
        )
        &&& after.events.len() == self.events.len() + 2
        &&& after.events == self.events.push(Event::Match(trade_of(self, taker, fill))).push(
            after.events.last(),
        )
        &&& after.events.last() matches Event::Settle(paid) && {
            &&& paid.event_type == 33111472894808803319726137140961827977
            &&& paid.action_id == s.action_counter
            &&& paid.market == taker.market
            &&& paid.owner == fill.owner
            &&& paid.settlement_log == self.log_a.key || paid.settlement_log == self.log_b.key
            &&& paid.market_tokens == if ask {
                given
            } else {
                0
            }
            &&& paid.pricing_tokens == if ask {
                0
            } else {
                given
            }
        }
        &&& self.trades.count < u64::MAX
        &&& after.trades.count == self.trades.count + 1
        &&& after.trades.max == self.trades.max
        &&& after.trades.entries.len() == self.trades.entries.len()
        &&& forall|i: int|
            0 <= i < self.trades.entries.len() && i != self.trades.count as int % self.trades.max as int
                ==> #[trigger] after.trades.entries[i] == self.trades.entries[i]
        &&& is_entry_of(
            after.trades.entries[self.trades.count as int % self.trades.max as int],
            trade_of(self, taker, fill),
        )
    }

    spec fn moves_one(self, taker: Taker, fill: Fill, after: Ledger) -> bool {
        let given = given_for(taker, fill);
        let came_in = if taker.pays_by_fill {
            given as int
        } else {
            0
        };
        let s = self.state;
        let e = after.state;
        let gone = if fill.maker_filled {
            1int
        } else {
            0
        };
        &&& taker.side == Side::Bid ==> {
            &&& e.prc_vault_balance == s.prc_vault_balance + came_in
            &&& e.prc_order_balance == s.prc_order_balance + came_in - given
            &&& e.prc_log_balance == s.prc_log_balance + given
            &&& e.mkt_vault_balance == s.mkt_vault_balance
            &&& e.mkt_order_balance == s.mkt_order_balance
            &&& e.mkt_log_balance == s.mkt_log_balance
            &&& e.active_ask == s.active_ask - gone
            &&& e.active_bid == s.active_bid
        }
        &&& taker.side == Side::Ask ==> {
            &&& e.mkt_vault_balance == s.mkt_vault_balance + came_in
            &&& e.mkt_order_balance == s.mkt_order_balance + came_in - given
            &&& e.mkt_log_balance == s.mkt_log_balance + given
            &&& e.prc_vault_balance == s.prc_vault_balance
            &&& e.prc_order_balance == s.prc_order_balance
            &&& e.prc_log_balance == s.prc_log_balance
            &&& e.active_bid == s.active_bid - gone
            &&& e.active_ask == s.active_ask
        }
        &&& e.last_price == fill.price && e.last_ts == taker.now
        &&& e.settle_a == s.settle_a
        &&& e.settle_b == s.settle_b
        &&& s.log_rollover ==> e.log_rollover
        &&& e.log_deposit_balance == s.log_deposit_balance
        &&& e.action_counter == s.action_counter
        &&& e.trade_counter == s.trade_counter
        &&& e.order_counter == s.order_counter
        &&& e.mkt_user_vault_balance == s.mkt_user_vault_balance
        &&& e.prc_user_vault_balance == s.prc_user_vault_balance
        &&& e.prc_fees_balance == s.prc_fees_balance
    }

    spec fn yields_one(self, taker: Taker, fill: Fill, after: Ledger) -> bool {
        let left = after.across(taker.side);
        let there = self.across(taker.side);
        &&& after.along(taker.side) == self.along(taker.side)
        &&& fill.maker_filled ==> left == there.remove(fill.key)
        &&& !fill.maker_filled ==> fill.quantity <= there[fill.key].value.amount && left == there.insert(
            fill.key,
            Kept {
                owner: there[fill.key].owner,
                value: Order {
                    amount: (there[fill.key].value.amount - fill.quantity) as u64,
                    expiry: there[fill.key].value.expiry,
                },
            },
        )
    }

    #[verifier::rlimit(80)]
    proof fn lemma_takes_one(self, taker: Taker, fill: Fill)
        requires
            self.has_logs(),
            self.filled(taker, fill) is Ok,
        ensures
            self.takes_one(taker, fill, self.filled(taker, fill)->Ok_0),
            self.moves_one(taker, fill, self.filled(taker, fill)->Ok_0),
            self.yields_one(taker, fill, self.filled(taker, fill)->Ok_0),
            self.filled(taker, fill)->Ok_0.has_logs(),
    {
        let after = self.filled(taker, fill)->Ok_0;
        let logged = self.logged(taker, fill)->Ok_0;
        let reduced = logged.reduced(taker.side.spec_opposite(), fill)->Ok_0;
        let state = if taker.pays_by_fill {
            crate::ledger::deposited(
                reduced.state,
                taker.pays_market_tokens(),
                taker.price_of(fill),
            )->Ok_0
        } else {
            reduced.state
        };
        let entered = reduced.with_state(
            MarketState { last_price: fill.price, last_ts: taker.now, ..state },
        );
        assert(taker.price_of(fill) == given_for(taker, fill));
        entered.settling().law_settlement(
            taker.market,
            fill.owner,
            taker.side == Side::Ask,
            given_for(taker, fill),
            taker.now,
        );
        assert(entered.settling().pays(
            after.settling(),
            taker.market,
            fill.owner,
            taker.side == Side::Ask,
            given_for(taker, fill),
            taker.now,
        ));
        assert(logged.events == self.events.push(Event::Match(trade_of(self, taker, fill))));
        assert(entered.events == logged.events);
        assert(after.events == entered.events.push(after.events.last()));
        let place = self.trades.count as int % self.trades.max as int;
        assert(0 <= place < self.trades.max) by (nonlinear_arith)
            requires
                place == self.trades.count as int % self.trades.max as int,
                0 < self.trades.max,
        ;
    }
}

/// A trade and the settlement behind it add that trade to the trades since.
proof fn lemma_trades_push(before: Seq<Event>, events: Seq<Event>, trade: MatchEvent, settled: Event)
    requires
        before.len() <= events.len(),
        settled is Settle,
    ensures
        trades_since(before, events.push(Event::Match(trade)).push(settled)) == trades_since(
            before,
            events,
        ).push(trade),
{
    let n = before.len() as int;
    let one = events.push(Event::Match(trade));
    let two = one.push(settled);
    assert(two.skip(n).drop_last() =~= one.skip(n));
    assert(one.skip(n).drop_last() =~= events.skip(n));
    assert(two.skip(n).last() == settled);
    assert(one.skip(n).last() == Event::Match(trade));
    assert(trades_in(two.skip(n)) == trades_in(one.skip(n)));
    assert(trades_in(one.skip(n)) == trades_in(events.skip(n)).push(trade));
}

/// The sums with one more trade.
proof fn lemma_sums_push(trades: Seq<MatchEvent>, trade: MatchEvent, factor: int, net: Option<u64>, rate: u32, side: Side)
    ensures
        ({
            let more = trades.push(trade);
            &&& more.drop_last() == trades
            &&& market_tokens(more) == market_tokens(trades) + trade.amount
            &&& last_tokens(more, factor, net) == match net {
                Some(price) if !trade.maker_filled => price - pricing_tokens(trades, factor, net),
                _ => (trade.amount as int * trade.price as int) / factor,
            }
            &&& pricing_tokens(more, factor, net) == pricing_tokens(trades, factor, net) + last_tokens(
                more,
                factor,
                net,
            )
            &&& fees(more, factor, net, rate) == fees(trades, factor, net, rate) + (last_tokens(
                more,
                factor,
                net,
            ) * rate as int) / 10000000
            &&& used_up(more) == used_up(trades) + if trade.maker_filled {
                1int
            } else {
                0
            }
            &&& forall|id: u128| #[trigger]
                earned(more, factor, net, side, id) == earned(trades, factor, net, side, id)
                    + if account_of(trade.maker) == id {
                    match side {
                        Side::Bid => last_tokens(more, factor, net),
                        Side::Ask => trade.amount as int,
                    }
                } else {
                    0
                }
        }),
{
    let more = trades.push(trade);
    assert(more.drop_last() =~= trades);
    assert(more.last() == trade);
}

impl Ledger {
    /// Whether the trades that `after` reports are what an order has come to there.
    pub open spec fn has_traded(self, taker: Taker, to_fill: u64, after: Ledger, tally: Tally) -> bool {
        let trades = trades_since(self.events, after.events);
        let factor = taker.factor as int;
        let net = taker.net(to_fill);
        &&& tally.filled == market_tokens(trades)
        &&& tally.paid == pricing_tokens(trades, factor, net)
        &&& tally.fee == fees(trades, factor, net, taker.taker_fee)
        &&& forall|k: int|
            0 <= k < trades.len() ==> self.can_trade(
                taker.market,
                taker.user,
                taker.side,
                taker.limit,
                self.state.action_counter as int,
                taker.now,
                #[trigger] trades[k],
            )
        &&& self.numbers(trades)
        &&& fill_in_turn(trades, factor, to_fill, taker.by_quantity, taker.kinds())
        &&& self.yields(after, taker.side, trades)
        &&& self.pays_makers(after, taker.side, factor, net, trades)
        &&& self.moves_totals(after, taker.side, taker.pays_by_fill, factor, net, trades)
        &&& self.tells(after, taker.market, taker.side, factor, net, trades)
        &&& self.keeps_trades(after, trades)
    }

    #[verifier::rlimit(40)]
    proof fn lemma_yields_push(self, now: Ledger, taker: Taker, fill: Fill, after: Ledger, trades: Seq<MatchEvent>, trade: MatchEvent)
        requires
            self.yields(now, taker.side, trades),
            now.yields_one(taker, fill, after),
            self.across(taker.side).contains_key(fill.key),
            now.across(taker.side).contains_key(fill.key),
            now.across(taker.side)[fill.key] == self.across(taker.side)[fill.key],
            forall|k: int| 0 <= k < trades.len() ==> (#[trigger] trades[k]).maker_order_id != fill.key,
            trade.maker_order_id == fill.key,
            trade.maker_filled == fill.maker_filled,
            trade.amount == fill.quantity,
        ensures
            self.yields(after, taker.side, trades.push(trade)),
    {
        let more = trades.push(trade);
        let n = trades.len() as int;
        let side = taker.side;
        assert(more[n] == trade);
        assert forall|key: u128| #[trigger]
            self.across(side).contains_key(key) && (forall|k: int|
                0 <= k < more.len() ==> (#[trigger] more[k]).maker_order_id
                    != key) implies after.across(side).contains_key(key) && after.across(side)[key]
            == self.across(side)[key] by {
            assert(key != fill.key);
            assert forall|k: int| 0 <= k < trades.len() implies (#[trigger] trades[k]).maker_order_id
                != key by {
                assert(more[k] == trades[k]);
            }
        }
        assert forall|k: int| 0 <= k < more.len() implies ({
            let key = (#[trigger] more[k]).maker_order_id;
            let left = after.across(side)[key];
            &&& more[k].maker_filled <==> !after.across(side).contains_key(key)
            &&& !more[k].maker_filled ==> left.owner == self.across(side)[key].owner && left.value.expiry
                == self.across(side)[key].value.expiry && left.value.amount == self.across(
                side,
            )[key].value.amount - more[k].amount
        }) by {
            if k < n {
                assert(more[k] == trades[k]);
                assert(trades[k].maker_order_id != fill.key);
            }
        }
    }

    #[verifier::rlimit(40)]
    proof fn lemma_tells_push(
        self,
        now: Ledger,
        taker: Taker,
        fill: Fill,
        after: Ledger,
        factor: int,
        net: Option<u64>,
        trades: Seq<MatchEvent>,
        trade: MatchEvent,
    )
        requires
            self.tells(now, taker.market, taker.side, factor, net, trades),
            now.takes_one(taker, fill, after),
            trade == trade_of(now, taker, fill),
            same_log(self.log_a, now.log_a),
            same_log(self.log_b, now.log_b),
            taker.side == Side::Bid ==> fill.tokens == last_tokens(trades.push(trade), factor, net),
        ensures
            self.tells(after, taker.market, taker.side, factor, net, trades.push(trade)),
    {
        let more = trades.push(trade);
        let start = self.events.len();
        let n = trades.len() as int;
        assert(after.events.len() == start + 2 * more.len());
        assert forall|k: int| 0 <= k < more.len() implies self.tells_one(
            after.events[start + 2 * k],
            after.events[start + 2 * k + 1],
            taker.market,
            taker.side,
            last_tokens(more.take(k + 1), factor, net),
            #[trigger] more[k],
        ) by {
            if k < n {
                assert(more[k] == trades[k]);
                assert(more.take(k + 1) =~= trades.take(k + 1));
                assert(after.events[start + 2 * k] == now.events[start + 2 * k]);
                assert(after.events[start + 2 * k + 1] == now.events[start + 2 * k + 1]);
            } else {
                assert(more.take(k + 1) =~= more);
                assert(start + 2 * k == now.events.len());
            }
        }
        assert forall|k: int| 0 <= k < start implies #[trigger] after.events[k] == self.events[k] by {
            assert(now.events[k] == self.events[k]);
        }
    }

    #[verifier::rlimit(30)]
    proof fn lemma_keeps_push(self, now: Ledger, taker: Taker, fill: Fill, after: Ledger, trades: Seq<MatchEvent>, trade: MatchEvent)
        requires
            self.has_logs(),
            self.keeps_trades(now, trades),
            now.takes_one(taker, fill, after),
            trade == trade_of(now, taker, fill),
        ensures
            self.keeps_trades(after, trades.push(trade)),
    {
        let more = trades.push(trade);
        let n = trades.len() as int;
        let max = self.trades.max as int;
        let count = self.trades.count as int;
        assert forall|k: int| 0 <= k < more.len() && more.len() - k <= max implies is_entry_of(
            after.trades.entries[(count + k) % max],
            #[trigger] more[k],
        ) by {
            if k < n {
                assert(more[k] == trades[k]);
                assert(0 <= (count + k) % max < max && (count + k) % max != (count + n) % max)
                    by (nonlinear_arith)
                    requires
                        0 < max,
                        0 < n - k < max,
                        count + k >= 0,
                {
                    let a = (count + k) / max;
                    let b = (count + n) / max;
                    assert(count + k == max * a + (count + k) % max);
                    assert(count + n == max * b + (count + n) % max);
                    if (count + k) % max == (count + n) % max {
                        assert(n - k == max * (b - a));
                        assert(b - a >= 1 ==> max * (b - a) >= max);
                        assert(b - a <= 0 ==> max * (b - a) <= 0);
                    }
                }
                assert(after.trades.entries[(count + k) % max] == now.trades.entries[(count + k) % max]);
            }
        }
    }
}

impl Ledger {
    #[verifier::rlimit(80)]
    proof fn lemma_has_traded_push(self, now: Ledger, taker: Taker, to_fill: u64, tally: Tally, key: u128, kept: Kept<Order>)
        requires
            self.has_logs(),
            now.has_logs(),
            self.has_traded(taker, to_fill, now, tally),
            self.across(taker.side).contains_key(key),
            now.across(taker.side).contains_key(key),
            now.across(taker.side)[key] == kept,
            self.across(taker.side)[key] == kept,
            forall|k: int|
                0 <= k < trades_since(self.events, now.events).len() ==> (#[trigger] trades_since(
                    self.events,
                    now.events,
                )[k]).maker_order_id != key,
            !crate::ledger::is_expired(kept.value, taker.now),
            kept.owner != taker.user,
            crate::ledger::within_limit(taker.side, taker.limit, crate::order_book::key_price(key)),
            !taker.by_quantity ==> tally.to_fill + tally.paid == to_fill,
            taker.by_quantity ==> tally.to_fill + tally.filled == to_fill,
            trades_since(self.events, now.events).len() > 0 ==> tally.to_fill > 0,
            taker.fill(tally, key, kept) is Ok,
            taker.tallied(tally, taker.fill(tally, key, kept)->Ok_0) is Ok,
            now.filled(taker, taker.fill(tally, key, kept)->Ok_0) is Ok,
        ensures
            ({
                let fill = taker.fill(tally, key, kept)->Ok_0;
                let after = now.filled(taker, fill)->Ok_0;
                let next = taker.tallied(tally, fill)->Ok_0;
                &&& self.has_traded(taker, to_fill, after, next)
                &&& after.has_logs()
                &&& trades_since(self.events, after.events) == trades_since(
                    self.events,
                    now.events,
                ).push(trade_of(now, taker, fill))
                &&& trade_of(now, taker, fill).maker_order_id == key
                &&& !fill.last && !taker.by_quantity ==> next.to_fill + next.paid == to_fill
                &&& !fill.last && taker.by_quantity ==> next.to_fill + next.filled == to_fill
                &&& !fill.last ==> next.to_fill > 0
            }),
    {
        let fill = taker.fill(tally, key, kept)->Ok_0;
        let after = now.filled(taker, fill)->Ok_0;
        let next = taker.tallied(tally, fill)->Ok_0;
        let trades = trades_since(self.events, now.events);
        let trade = trade_of(now, taker, fill);
        let more = trades.push(trade);
        let factor = taker.factor as int;
        let net = taker.net(to_fill);
        crate::priority::lemma_fill_bounds(taker, tally, key, kept);
        now.lemma_takes_one(taker, fill);
        lemma_trades_push(self.events, now.events, trade, after.events.last());
        lemma_sums_push(trades, trade, factor, net, taker.taker_fee, taker.side);
        assert(fill.tokens == last_tokens(more, factor, net));
        assert(is_of_kind(more, factor, to_fill, taker.by_quantity, taker.kinds()));
        lemma_fill_in_turn(trades, trade, factor, to_fill, taker.by_quantity, taker.kinds());
        self.lemma_yields_push(now, taker, fill, after, trades, trade);
        self.lemma_tells_push(now, taker, fill, after, factor, net, trades, trade);
        self.lemma_keeps_push(now, taker, fill, after, trades, trade);
        assert forall|k: int| 0 <= k < more.len() implies self.can_trade(
            taker.market,
            taker.user,
            taker.side,
            taker.limit,
            self.state.action_counter as int,
            taker.now,
            #[trigger] more[k],
        ) by {
            if k < trades.len() {
                assert(more[k] == trades[k]);
            }
        }
        assert(self.numbers(more)) by {
            assert forall|k: int| 0 <= k < more.len() implies (#[trigger] more[k]).trade_id
                == self.trades.count + k + 1 by {
                if k < trades.len() {
                    assert(more[k] == trades[k]);
                }
            }
            assert forall|j: int, k: int| 0 <= j < k < more.len() implies (
            #[trigger] more[j]).maker_order_id != (#[trigger] more[k]).maker_order_id by {
                assert(more[j] == trades[j]);
                if k < trades.len() {
                    assert(more[k] == trades[k]);
                }
            }
        }
        assert(self.pays_makers(after, taker.side, factor, net, more)) by {
            let ask = taker.side == Side::Ask;
            assert forall|id: u128, m: bool| #[trigger]
                held_in(after.log_a, after.log_b, id, m) == held_in(self.log_a, self.log_b, id, m)
                    + if m == ask {
                    earned(more, factor, net, taker.side, id)
                } else {
                    0
                } by {
                assert(held_in(now.log_a, now.log_b, id, m) == held_in(self.log_a, self.log_b, id, m)
                    + if m == ask {
                    earned(trades, factor, net, taker.side, id)
                } else {
                    0
                });
            }
        }
    }

    #[verifier::rlimit(60)]
    proof fn lemma_walk_trades(
        self,
        now: Ledger,
        taker: Taker,
        to_fill: u64,
        tally: Tally,
        keys: Seq<u128>,
        i: int,
        expired: Seq<u128>,
    )
        requires
            !taker.preview,
            self.has_logs(),
            now.has_logs(),
            now.walk(taker, tally, keys, i, expired) is Ok,
            0 <= i,
            keys.no_duplicates(),
            self.has_traded(taker, to_fill, now, tally),
            !taker.by_quantity ==> tally.to_fill + tally.paid == to_fill,
            taker.by_quantity ==> tally.to_fill + tally.filled == to_fill,
            trades_since(self.events, now.events).len() > 0 ==> tally.to_fill > 0,
            forall|j: int|
                i <= j < keys.len() ==> {
                    &&& self.across(taker.side).contains_key(#[trigger] keys[j])
                    &&& now.across(taker.side).contains_key(keys[j])
                    &&& now.across(taker.side)[keys[j]] == self.across(taker.side)[keys[j]]
                },
            forall|j: int, k: int|
                i <= j < keys.len() && 0 <= k < trades_since(self.events, now.events).len() ==> (
                #[trigger] trades_since(self.events, now.events)[k]).maker_order_id
                    != #[trigger] keys[j],
        ensures
            self.has_traded(
                taker,
                to_fill,
                now.walk(taker, tally, keys, i, expired)->Ok_0.ledger,
                now.walk(taker, tally, keys, i, expired)->Ok_0.tally,
            ),
            now.walk(taker, tally, keys, i, expired)->Ok_0.ledger.has_logs(),
        decreases keys.len() - i,
    {
        if i < keys.len() {
            let key = keys[i];
            let kept = now.side(taker.side.spec_opposite())[key];
            assert(now.side(taker.side.spec_opposite()) == now.across(taker.side));
            if crate::ledger::is_expired(kept.value, taker.now) {
                self.lemma_walk_trades(now, taker, to_fill, tally, keys, i + 1, expired.push(key));
            } else if kept.owner == taker.user {
                self.lemma_walk_trades(now, taker, to_fill, tally, keys, i + 1, expired);
            } else if crate::ledger::within_limit(
                taker.side,
                taker.limit,
                crate::order_book::key_price(key),
            ) {
                let fill = taker.fill(tally, key, kept)->Ok_0;
                let next = taker.tallied(tally, fill)->Ok_0;
                let after = now.filled(taker, fill)->Ok_0;
                self.lemma_has_traded_push(now, taker, to_fill, tally, key, kept);
                if !fill.last {
                    let trades = trades_since(self.events, now.events);
                    let more = trades_since(self.events, after.events);
                    now.lemma_takes_one(taker, fill);
                    assert forall|j: int, k: int| i + 1 <= j < keys.len() && 0 <= k < more.len() implies (
                    #[trigger] more[k]).maker_order_id != #[trigger] keys[j] by {
                        if k < trades.len() {
                            assert(more[k] == trades[k]);
                        } else {
                            assert(keys[i] != keys[j]);
                        }
                    }
                    assert forall|j: int| i + 1 <= j < keys.len() implies {
                        &&& self.across(taker.side).contains_key(#[trigger] keys[j])
                        &&& after.across(taker.side).contains_key(keys[j])
                        &&& after.across(taker.side)[keys[j]] == self.across(taker.side)[keys[j]]
                    } by {
                        assert(keys[i] != keys[j]);
                    }
                    self.lemma_walk_trades(after, taker, to_fill, next, keys, i + 1, expired);
                }
            }
        }
    }

    proof fn lemma_no_trades_yet(self, taker: Taker, to_fill: u64)
        requires
            self.has_logs(),
        ensures
            self.has_traded(taker, to_fill, self, Tally { to_fill, filled: 0, paid: 0, fee: 0 }),
            trades_since(self.events, self.events).len() == 0,
    {
        assert(self.events.skip(self.events.len() as int).len() == 0);
    }

    /// What an order has come to when it has been matched is what the trades that are reported make
    /// of it. Every trade is with an order of someone else that has not expired, at its price and
    /// within the limit; the amounts are taken from these orders and no other order changes; the
    /// makers are paid what the taker gives, each in the own account, and no other account changes;
    /// the totals move by what is given; and the trades are logged.
    #[verifier::rlimit(30)]
    pub proof fn law_matching(self, taker: Taker, to_fill: u64)
        requires
            self.has_logs(),
            self.across(taker.side).dom().finite(),
            !taker.preview,
        ensures
            self.matched(taker, to_fill) matches Ok(walked) ==> self.has_traded(
                taker,
                to_fill,
                walked.ledger,
                walked.tally,
            ) && walked.ledger.has_logs(),
    {
        reveal(Ledger::matched);
        let maker = taker.side.spec_opposite();
        if self.matched(taker, to_fill) is Ok {
            let keys = crate::ledger::best_first(maker, self.side(maker));
            Self::lemma_best_first(maker, self.side(maker));
            self.lemma_no_trades_yet(taker, to_fill);
            assert(self.side(maker) == self.across(taker.side));
            self.lemma_walk_trades(
                self,
                taker,
                to_fill,
                Tally { to_fill, filled: 0, paid: 0, fee: 0 },
                keys,
                0,
                Seq::empty(),
            );
        }
    }
}

impl Ledger {
    /// A fill adds one trade, with the order that is filled.
    pub proof fn lemma_filled_trades(self, taker: Taker, fill: Fill, before: Seq<Event>)
        requires
            self.has_logs(),
            before.len() <= self.events.len(),
            self.filled(taker, fill) is Ok,
        ensures
            ({
                let after = self.filled(taker, fill)->Ok_0;
                let trades = trades_since(before, self.events);
                let more = trades_since(before, after.events);
                &&& more.len() == trades.len() + 1
                &&& more.drop_last() == trades
                &&& more.last().maker_order_id == fill.key
                &&& after.has_logs()
                &&& before.len() <= after.events.len()
            }),
    {
        let after = self.filled(taker, fill)->Ok_0;
        self.lemma_takes_one(taker, fill);
        let trade = trade_of(self, taker, fill);
        lemma_trades_push(before, self.events, trade, after.events.last());
        assert(trades_since(before, self.events).push(trade).drop_last() =~= trades_since(
            before,
            self.events,
        ));
    }
}

} // verus!
