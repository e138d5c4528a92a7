//! What holds across instructions.
use crate::cancel::{BooksView, CancelOrder, ExpireOrder, ManagerCancelOrder, Returned};
use crate::context::{LimitOrder, OrderContext};
use crate::create::{CreateMarket, MarketSpace};
use crate::ledger::{Ledger, Settling, Taker, Tally};
use crate::log_chain::LogLink;
use crate::market::{ErrorCode, MarketState, MintType, Side, UserVault};
use crate::order_rules::{Desk, Rest};
use crate::pubkey::Pubkey;
use crate::records::{AccountEntry, Order, TradeEntry};
use crate::settlement::LogView;
use crate::shelf::Kept;
use crate::trade_log::Trades;
use crate::vault::{Emptied, ManagerVaultWithdraw, VaultDeposit, VaultWithdraw};
use crate::withdraw::{LogNeighbours, ManagerWithdraw, Withdraw, Withdrawn};
use vstd::prelude::*;

verus! {

impl Trades {
    /// The trade with a number, as long as the log keeps it.
    pub open spec fn trade(self, number: int) -> TradeEntry {
        self.entries[(number - 1) % self.max as int]
    }

    /// Whether the log still keeps the trade with a number: it is one of the last `max`.
    pub open spec fn remembers(self, number: int) -> bool {
        1 <= number <= self.count && self.count - self.max < number
    }

    /// Whether every trade that the log keeps stands in its place.
    pub open spec fn in_place(self) -> bool {
        &&& 0 < self.max <= self.entries.len()
        &&& forall|number: int| #[trigger]
            self.remembers(number) ==> self.trade(number).trade_id == number
    }

    /// A trade that is recorded gets the next number and is kept, with those before it that are
    /// among the last; each stands in its place.
    pub proof fn law_last_trades_are_kept(self, entry: TradeEntry)
        requires
            self.in_place(),
        ensures
            self.record(entry) matches Ok(after) ==> {
                &&& after.in_place()
                &&& after.count == self.count + 1
                &&& after.trade(after.count as int) == (TradeEntry { trade_id: after.count, ..entry })
                &&& forall|number: int|
                    number <= self.count && #[trigger] after.remembers(number) ==> self.remembers(number)
                        && after.trade(number) == self.trade(number)
            },
    {
        if self.record(entry) is Ok {
            let after = self.record(entry)->Ok_0;
            let m = self.max as int;
            let c = self.count as int;
            assert forall|number: int| number <= c && #[trigger] after.remembers(number) implies self.remembers(
                number,
            ) && after.trade(number) == self.trade(number) by {
                assert((number - 1) % m != c % m) by (nonlinear_arith)
                    requires
                        m > 0,
                        c + 1 - m < number <= c,
                {
                    let a = (number - 1) / m;
                    let b = c / m;
                    assert(number - 1 == m * a + (number - 1) % m);
                    assert(c == m * b + c % m);
                    if (number - 1) % m == c % m {
                        assert(c - (number - 1) == m * (b - a));
                        assert(0 < m * (b - a) < m);
                        assert(false) by (nonlinear_arith)
                            requires
                                0 < m * (b - a) < m,
                                m > 0,
                        ;
                    }
                }
                assert(0 <= (number - 1) % m < m) by (nonlinear_arith)
                    requires
                        m > 0,
                ;
            }
            assert(0 <= c % m < m) by (nonlinear_arith)
                requires
                    m > 0,
            ;
            assert forall|number: int| #[trigger] after.remembers(number) implies after.trade(
                number,
            ).trade_id == number by {
                if number <= c {
                    assert(self.remembers(number));
                }
            }
        }
    }
}

/// A market that was just opened is even: nothing in its vaults, no orders, no idle tokens, and
/// nothing in the trade log.
pub proof fn law_new_market_is_even(ledger: Ledger, ctx: CreateMarket, space: MarketSpace)
    requires
        crate::create::is_new(ledger, ctx, space),
    ensures
        ledger.state.spare_mkt() == 0,
        ledger.state.spare_prc() == 0,
        ledger.has_books(),
        ledger.miscount(Side::Bid) == 0,
        ledger.miscount(Side::Ask) == 0,
        ledger.idle() == 0,
        ledger.trades.in_place(),
{
    assert(ledger.bids.dom() =~= Set::<u128>::empty());
    assert(ledger.asks.dom() =~= Set::<u128>::empty());
}

/// The two settlement logs of a market that was just opened are linked with one another, and are
/// the active log and the next one.
pub proof fn law_first_logs_are_linked(ledger: Ledger, ctx: CreateMarket, space: MarketSpace)
    requires
        crate::create::is_new(ledger, ctx, space),
    ensures
        ledger.log_a.header.prev == Pubkey::zero(),
        ledger.log_a.header.next == ledger.log_b.key,
        ledger.log_b.header.prev == ledger.log_a.key,
        ledger.log_b.header.next == Pubkey::zero(),
        ledger.state.settle_a == ledger.log_a.key,
        ledger.state.settle_b == ledger.log_b.key,
{
}

/// The balances of tokens in vaults and orders.
pub open spec fn same_balances(a: MarketState, b: MarketState) -> bool {
    &&& a.mkt_vault_balance == b.mkt_vault_balance
    &&& a.mkt_order_balance == b.mkt_order_balance
    &&& a.mkt_log_balance == b.mkt_log_balance
    &&& a.mkt_user_vault_balance == b.mkt_user_vault_balance
    &&& a.prc_vault_balance == b.prc_vault_balance
    &&& a.prc_order_balance == b.prc_order_balance
    &&& a.prc_log_balance == b.prc_log_balance
    &&& a.prc_user_vault_balance == b.prc_user_vault_balance
    &&& a.prc_fees_balance == b.prc_fees_balance
}

/// The rest of a limit order that finds nothing on the other side: all of it is posted.
proof fn lemma_all_posted(ledger: Ledger, taker: Taker, order: LimitOrder, expiry: i64, brings: u64)
    requires
        ledger.has_books(),
        ledger.side(taker.side.spec_opposite()).dom().len() == 0,
        ledger.has_room(taker.side),
        ledger.state.order_counter < u64::MAX,
        order.quantity > 0,
        order.post,
        !order.preview,
        !taker.preview,
        crate::order_rules::brought(taker.side, order, taker.factor) == Ok::<u64, ErrorCode>(brings),
        ledger.matched(taker, order.quantity) is Ok,
        crate::order_rules::cleared(
            ledger.matched(taker, order.quantity)->Ok_0.ledger,
            taker,
            ledger.matched(taker, order.quantity)->Ok_0.expired,
        ) is Ok,
        crate::order_rules::limit_rest(
            crate::order_rules::cleared(
                ledger.matched(taker, order.quantity)->Ok_0.ledger,
                taker,
                ledger.matched(taker, order.quantity)->Ok_0.expired,
            )->Ok_0,
            taker,
            order,
            expiry,
            ledger.matched(taker, order.quantity)->Ok_0.tally,
        ) is Ok,
    ensures
        ({
            let walked = ledger.matched(taker, order.quantity)->Ok_0;
            let swept = crate::order_rules::cleared(walked.ledger, taker, walked.expired)->Ok_0;
            let rest = crate::order_rules::limit_rest(swept, taker, order, expiry, walked.tally)->Ok_0;
            let key = crate::order_book::order_key(taker.side, order.price, ledger.state.order_counter);
            &&& walked.tally.filled == 0
            &&& walked.tally.fee == 0
            &&& walked.tally.paid == 0
            &&& rest.paid == match taker.side {
                Side::Bid => brings,
                Side::Ask => 0,
            }
            &&& rest.posted_quantity == order.quantity
            &&& rest.order_id == key
            &&& !ledger.side(taker.side).contains_key(key)
            &&& crate::order_book::key_price(key) == order.price
            &&& rest.ledger.side(taker.side) == ledger.side(taker.side).insert(
                key,
                Kept { owner: taker.user, value: Order { amount: order.quantity, expiry } },
            )
            &&& same_balances(rest.ledger.state, ledger.state)
        }),
{
    let maker = taker.side.spec_opposite();
    let walked = ledger.matched(taker, order.quantity)->Ok_0;
    assert(walked.ledger == ledger && walked.tally.filled == 0 && walked.tally.paid == 0
        && walked.tally.fee == 0 && walked.expired.len() == 0) by {
        reveal(Ledger::matched);
        Ledger::lemma_best_first(maker, ledger.side(maker));
    }
    let swept = crate::order_rules::cleared(ledger, taker, walked.expired)->Ok_0;
    assert(swept == ledger) by {
        reveal(crate::order_rules::cleared);
    }
    reveal(crate::order_rules::limit_rest);
    reveal(Ledger::posted);
    crate::ledger::lemma_order_key(taker.side, order.price, ledger.state.order_counter);
    let numbered = ledger.with_state(
        MarketState { order_counter: (ledger.state.order_counter + 1) as u64, ..ledger.state },
    );
    assert(numbered.side(taker.side) == ledger.side(taker.side));
    assert(numbered.has_room(taker.side));
}

/// What becomes of the balances when a limit order of which nothing was filled is closed.
proof fn lemma_posted_closed(desk: Desk, ctx: OrderContext, side: Side, order: LimitOrder, expiry: i64, brings: u64, tally: Tally, rest: Rest)
    requires
        !order.preview,
        tally.filled == 0,
        tally.fee == 0,
        side == Side::Bid ==> rest.paid == brings,
        side == Side::Ask ==> order.quantity == brings && rest.posted_quantity == brings,
    ensures
        ({
            let closed = match side {
                Side::Bid => crate::order_rules::bid_closed(
                    desk,
                    ctx,
                    order,
                    expiry,
                    brings,
                    tally,
                    rest,
                ),
                Side::Ask => crate::order_rules::ask_closed(desk, ctx, order, expiry, tally, rest),
            };
            closed matches Ok(placed) ==> {
                &&& same_balances(placed.desk.ledger.state, desk.ledger.state)
                &&& placed.desk.ledger.bids == desk.ledger.bids
                &&& placed.desk.ledger.asks == desk.ledger.asks
                &&& placed.result.posted_quantity == rest.posted_quantity
                &&& placed.result.order_id == rest.order_id
                &&& placed.result.tokens_sent == brings
                &&& placed.deposit matches Some(t) && t.amount == brings
                    && crate::cancel::mint_of(side, ctx.market) == Ok::<MintType, ErrorCode>(
                    t.mint_type,
                )
            }
        }),
{
    match side {
        Side::Bid => {
            reveal(crate::order_rules::bid_closed);
        },
        Side::Ask => {
            reveal(crate::order_rules::ask_closed);
        },
    }
}

/// What the owner of a posted order gets back.
proof fn lemma_cancel_posted(
    state: MarketState,
    before: Map<u128, Kept<Order>>,
    key: u128,
    order: Order,
    cancel: CancelOrder,
    side: Side,
    tokens: u64,
    first: MarketState,
)
    requires
        !before.contains_key(key),
        Ledger::held_by(side, key, order, crate::math::units(cancel.market.mkt_decimals)) == Ok::<
            u64,
            ErrorCode,
        >(tokens),
        crate::ledger::deposited(first, side == Side::Ask, tokens) matches Ok(d) && same_balances(
            state,
            d,
        ),
    ensures
        match crate::cancel::cancelled(
            state,
            before.insert(key, Kept { owner: cancel.owner, value: order }),
            cancel,
            side,
            key,
        ) {
            Err(e) => e != ErrorCode::OrderNotFound && e != ErrorCode::AccessDenied,
            Ok(c) => {
                &&& c.orders == before
                &&& same_balances(c.state, first)
                &&& c.outcome.payout.amount == tokens
                &&& crate::cancel::mint_of(side, cancel.market) == Ok::<MintType, ErrorCode>(
                    c.outcome.payout.mint_type,
                )
            },
        },
{
    assert(before.insert(key, Kept { owner: cancel.owner, value: order }).remove(key) =~= before);
}

/// A limit order that finds nothing on the other side and is posted can be cancelled by its owner,
/// who gets back what was deposited; the orders and the balances are then what they were before.
#[verifier::rlimit(30)]
pub proof fn law_cancel_undoes_post(
    ledger: Ledger,
    ctx: OrderContext,
    side: Side,
    order: LimitOrder,
    new_log: (Pubkey, nat),
    cancel: CancelOrder,
)
    requires
        ledger.has_books(),
        ledger.side(side.spec_opposite()).dom().len() == 0,
        ledger.has_room(side),
        ledger.state.order_counter < u64::MAX,
        order.post,
        !order.preview,
        cancel.owner == ctx.user,
        cancel.market == ctx.market,
    ensures
        crate::order_rules::limit(ledger, ctx, side, order, new_log) matches Ok(placed) ==> {
            let key = placed.result.order_id;
            &&& placed.result.posted_quantity == order.quantity
            &&& placed.desk.ledger.side(side).contains_key(key)
            &&& match crate::cancel::cancelled(
                placed.desk.ledger.state,
                placed.desk.ledger.side(side),
                cancel,
                side,
                key,
            ) {
                Err(e) => e != ErrorCode::OrderNotFound && e != ErrorCode::AccessDenied,
                Ok(c) => {
                    &&& c.orders == ledger.side(side)
                    &&& same_balances(c.state, ledger.state)
                    &&& c.outcome.payout.amount == placed.result.tokens_sent
                    &&& placed.deposit == Some(c.outcome.payout)
                },
            }
        },
{
    if crate::order_rules::limit(ledger, ctx, side, order, new_log) is Ok {
        let placed = crate::order_rules::limit(ledger, ctx, side, order, new_log)->Ok_0;
        let desk0 = Desk { ledger, purse: ctx.purse, new_log: None };
        let desk = crate::order_rules::readied(desk0, ctx, order.rollover, new_log)->Ok_0;
        assert(desk.ledger.bids == ledger.bids && desk.ledger.asks == ledger.asks && same_balances(
            desk.ledger.state,
            ledger.state,
        ) && desk.ledger.state.order_counter == ledger.state.order_counter && desk.ledger.bid_slots
            == ledger.bid_slots && desk.ledger.ask_slots == ledger.ask_slots) by {
            reveal(crate::order_rules::readied);
        }
        let expiry = crate::order_rules::expiry_of(ctx.market, order.expires, ctx.now)->Ok_0;
        let taker = crate::order_rules::limit_taker(ctx, side, order);
        assert(!taker.preview && taker.side == side && taker.user == ctx.user && taker.factor
            == crate::math::units(ctx.market.mkt_decimals)) by {
            reveal(crate::order_rules::limit_taker);
        }
        let brings = crate::order_rules::brought(side, order, taker.factor)->Ok_0;
        let opened = crate::order_rules::limit_opened(desk.ledger, ctx, side, order, brings)->Ok_0;
        let entered = crate::order_rules::next_action(desk.ledger.state)->Ok_0;
        assert(opened.bids == ledger.bids && opened.asks == ledger.asks && opened.state.order_counter
            == ledger.state.order_counter && opened.bid_slots == ledger.bid_slots && opened.ask_slots
            == ledger.ask_slots && crate::ledger::deposited(entered, side == Side::Ask, brings) == Ok::<
            MarketState,
            ErrorCode,
        >(opened.state) && same_balances(entered, ledger.state)) by {
            reveal(crate::order_rules::limit_opened);
        }
        assert(opened.has_books()) by {
            assert forall|s: Side, k: u128| #[trigger] opened.side(s).contains_key(
                k,
            ) implies crate::ledger::key_number(s, k) < opened.state.order_counter by {
                assert(opened.side(s) == ledger.side(s));
                assert(ledger.side(s).contains_key(k));
            }
        }
        assert(opened.side(side) == ledger.side(side));
        assert(opened.side(side.spec_opposite()) == ledger.side(side.spec_opposite()));
        lemma_all_posted(opened, taker, order, expiry, brings);
        let walked = opened.matched(taker, order.quantity)->Ok_0;
        let swept = crate::order_rules::cleared(walked.ledger, taker, walked.expired)->Ok_0;
        let rest = crate::order_rules::limit_rest(swept, taker, order, expiry, walked.tally)->Ok_0;
        let last = desk.with_ledger(rest.ledger);
        lemma_posted_closed(last, ctx, side, order, expiry, brings, walked.tally, rest);
        let key = crate::order_book::order_key(side, order.price, ledger.state.order_counter);
        let value = Order { amount: order.quantity, expiry };
        assert(placed.desk.ledger.side(side) == rest.ledger.side(side));
        assert(Ledger::held_by(side, key, value, taker.factor) == Ok::<u64, ErrorCode>(brings));
        assert(same_balances(placed.desk.ledger.state, opened.state));
        lemma_cancel_posted(
            placed.desk.ledger.state,
            ledger.side(side),
            key,
            value,
            cancel,
            side,
            brings,
            entered,
        );
    }
}

impl Ledger {
    /// An order is posted at the cost of another only on a full side, and only of the one that
    /// comes last there, at a price that is better than its price.
    pub proof fn law_only_the_last_is_evicted(self, taker: Taker, price: u64, order: Order, key: u128)
        requires
            self.has_books(),
            self.side(taker.side).contains_key(key),
        ensures
            self.posted(taker, price, order) matches Ok(after) ==> after.side(taker.side).contains_key(key)
                && after.side(taker.side)[key] == self.side(taker.side)[key] || !self.has_room(taker.side)
                && key == self.worst(taker.side) && match taker.side {
                Side::Bid => price > crate::order_book::key_price(key),
                Side::Ask => price < crate::order_book::key_price(key),
            },
    {
        reveal(Ledger::posted);
        crate::ledger::lemma_order_key(taker.side, price, self.state.order_counter);
        let numbered = self.with_state(
            MarketState { order_counter: (self.state.order_counter + 1) as u64, ..self.state },
        );
        assert(numbered.side(taker.side) == self.side(taker.side));
        assert(numbered.worst(taker.side) == self.worst(taker.side));
    }
}

/// The balance of an account in a log, 0 if there is none.
pub open spec fn balance_in(log: LogView, owner: Pubkey, mkt_token: bool) -> u64 {
    let id = crate::settlement::owner_id(owner);
    if log.entries.contains_key(id) {
        log.entries[id].value.balance(mkt_token)
    } else {
        0
    }
}

impl Settling {
    /// What is settled goes to the owner's account in one of the two logs: in the active one if it
    /// has an account of the owner or room for one, else in the next one, and then a new log is
    /// asked for. No other account changes.
    #[verifier::rlimit(30)]
    pub proof fn law_settled_tokens_arrive(self, market: Pubkey, owner: Pubkey, mkt_token: bool, amount: u64, now: i64, other: u128)
        requires
            other != crate::settlement::owner_id(owner),
        ensures
            self.settle(market, owner, mkt_token, amount, now) matches Ok(after) ==> {
                let id = crate::settlement::owner_id(owner);
                let active = self.log_a.entries.contains_key(id) || self.log_a.has_room();
                &&& active ==> balance_in(after.log_a, owner, mkt_token) == balance_in(
                    self.log_a,
                    owner,
                    mkt_token,
                ) + amount && after.log_b == self.log_b && after.state.log_rollover
                    == self.state.log_rollover
                &&& !active ==> balance_in(after.log_b, owner, mkt_token) == balance_in(
                    self.log_b,
                    owner,
                    mkt_token,
                ) + amount && after.log_a == self.log_a && after.state.log_rollover
                &&& after.log_a.entries.contains_key(other) == self.log_a.entries.contains_key(other)
                &&& after.log_b.entries.contains_key(other) == self.log_b.entries.contains_key(other)
                &&& self.log_a.entries.contains_key(other) ==> after.log_a.entries[other]
                    == self.log_a.entries[other]
                &&& self.log_b.entries.contains_key(other) ==> after.log_b.entries[other]
                    == self.log_b.entries[other]
            },
    {
    }
}

/// A withdrawal pays all that the log holds for the owner, and closes the account: a second
/// withdrawal finds none, unless the counter of actions is at its end.
#[verifier::rlimit(30)]
pub proof fn law_withdrawal_is_complete(state: MarketState, log: LogView, around: LogNeighbours, ctx: Withdraw)
    ensures
        crate::withdraw::withdrawn(state, log, around, ctx) matches Ok(w) ==> {
            &&& w.outcome.result.mkt_tokens == balance_in(log, ctx.owner, true)
            &&& w.outcome.result.prc_tokens == balance_in(log, ctx.owner, false)
            &&& balance_in(w.log, ctx.owner, true) == 0
            &&& balance_in(w.log, ctx.owner, false) == 0
            &&& crate::withdraw::withdrawn(w.state, w.log, w.around, ctx) == Err::<
                crate::withdraw::Withdrawn,
                ErrorCode,
            >(
                if w.state.action_counter == u64::MAX {
                    ErrorCode::Overflow
                } else {
                    ErrorCode::AccountNotFound
                },
            )
        },
{
}

/// What is deposited in a user vault is added to what is there, and the owner can withdraw it all;
/// the vault is then empty.
#[verifier::rlimit(30)]
pub proof fn law_vault_gives_back(
    state: MarketState,
    vault: UserVault,
    log: LogView,
    around: LogNeighbours,
    deposit: VaultDeposit,
    withdraw: VaultWithdraw,
)
    requires
        deposit.owner == withdraw.owner,
    ensures
        deposit.done(state, vault, log, around) matches Ok(s) ==> {
            &&& s.vault.mkt_tokens == vault.mkt_tokens + balance_in(log, deposit.owner, true)
            &&& s.vault.prc_tokens == vault.prc_tokens + balance_in(log, deposit.owner, false)
            &&& crate::vault::vault_withdrawn(s.state, s.vault, withdraw) matches Ok(e) ==> {
                &&& e.vault.mkt_tokens == 0
                &&& e.vault.prc_tokens == 0
                &&& e.outcome.mkt_payout matches Some(t) ==> t.amount == s.vault.mkt_tokens
                &&& e.outcome.mkt_payout is None ==> s.vault.mkt_tokens == 0
                &&& e.outcome.prc_payout matches Some(t) ==> t.amount == s.vault.prc_tokens
                &&& e.outcome.prc_payout is None ==> s.vault.prc_tokens == 0
            }
        },
{
}

/// A log that is put behind the last one is linked with it both ways, and the two are the active
/// log and the next one.
pub proof fn law_new_log_is_linked(state: MarketState, log_b: LogView, market: Pubkey, new_log: (Pubkey, nat))
    ensures
        ({
            let (after, last, added) = crate::log_chain::rolled(state, log_b, market, new_log);
            &&& last.header.next == added.key
            &&& added.header.prev == last.key
            &&& added.header.next == Pubkey::zero()
            &&& last.entries == log_b.entries
            &&& added.entries == Map::<u128, crate::shelf::Kept<AccountEntry>>::empty()
            &&& after.settle_a == last.key
            &&& after.settle_b == added.key
            &&& !after.log_rollover
        }),
{
}

/// Where a log leaves the chain, its neighbours are linked with each other. If the log that follows
/// the active one was the next log before, it is so after, unless the active log is another one
/// that is not a neighbour.
pub proof fn law_chain_stays_linked(state: MarketState, settle: LogLink, prev: LogLink, next: LogLink)
    ensures
        crate::log_chain::unlinked(state, settle, prev, next) matches Ok((after, before, behind)) ==> {
            &&& before.key == prev.key
            &&& behind.key == next.key
            &&& before.header.next == behind.key
            &&& behind.header.prev == before.key
            &&& before.header.prev == prev.header.prev
            &&& behind.header.next == next.header.next
            &&& after.settle_a != settle.key || settle.key == next.key
            &&& state.settle_a == settle.key ==> after.settle_a == behind.key && after.settle_b
                == behind.header.next
            &&& state.settle_a == prev.key && state.settle_b == settle.key && prev.key != settle.key
                ==> after.settle_a == before.key && after.settle_b == before.header.next
        },
{
}

/// A posted order expires never, or later than now and no sooner than the market allows.
pub proof fn law_expiry_is_in_the_future(market: crate::market::Market, expires: i64, now: i64)
    ensures
        crate::order_rules::expiry_of(market, expires, now) matches Ok(expiry) ==> expiry == 0 || expiry
            == expires && now < expiry && now + market.expire_min <= expiry,
        crate::order_rules::expiry_of(market, expires, now) matches Ok(expiry) ==> forall|order: Order|
            order.expiry == expiry ==> !#[trigger] crate::ledger::is_expired(order, now),
{
    reveal(crate::order_rules::expiry_of);
}

impl Ledger {
    /// An order that is posted takes the next number, so it goes behind all orders of its price that
    /// are there.
    pub proof fn law_posted_order_is_the_latest(self, taker: Taker, price: u64, order: Order, other: u128)
        requires
            self.has_books(),
            self.state.order_counter < u64::MAX,
            self.side(taker.side).contains_key(other),
            crate::order_book::key_price(other) == price,
        ensures
            self.posted(taker, price, order) matches Ok(after) ==> {
                let key = crate::order_book::order_key(taker.side, price, self.state.order_counter);
                &&& after.state.order_counter == self.state.order_counter + 1
                &&& !self.side(taker.side).contains_key(key)
                &&& after.side(taker.side).contains_key(key)
                &&& after.side(taker.side)[key] == (Kept { owner: taker.user, value: order })
                &&& crate::priority::goes_before(
                    taker.side,
                    crate::order_book::key_price(other),
                    crate::ledger::key_number(taker.side, other),
                    crate::order_book::key_price(key),
                    crate::ledger::key_number(taker.side, key),
                )
            },
    {
        reveal(Ledger::posted);
        crate::ledger::lemma_order_key(taker.side, price, self.state.order_counter);
    }
}

/// A limit order that is posted comes to the same whether or not it is to be filled completely.
pub proof fn law_fill_is_ignored_for_posted_orders(ledger: Ledger, ctx: OrderContext, side: Side, order: LimitOrder, new_log: (Pubkey, nat))
    requires
        order.post,
    ensures
        crate::order_rules::limit(ledger, ctx, side, order, new_log) == crate::order_rules::limit(
            ledger,
            ctx,
            side,
            LimitOrder { fill: false, ..order },
            new_log,
        ),
{
    let other = LimitOrder { fill: false, ..order };
    assert(crate::order_rules::limit_taker(ctx, side, order) == crate::order_rules::limit_taker(
        ctx,
        side,
        other,
    )) by {
        reveal(crate::order_rules::limit_taker);
    }
    assert forall|l: Ledger, b: u64| #[trigger]
        crate::order_rules::limit_opened(l, ctx, side, order, b) == crate::order_rules::limit_opened(
            l,
            ctx,
            side,
            other,
            b,
        ) by {
        reveal(crate::order_rules::limit_opened);
    }
    assert forall|l: Ledger, t: Taker, e: i64, y: Tally| #[trigger]
        crate::order_rules::limit_rest(l, t, order, e, y) == crate::order_rules::limit_rest(
            l,
            t,
            other,
            e,
            y,
        ) by {
        reveal(crate::order_rules::limit_rest);
    }
    assert forall|d: Desk, e: i64, b: u64, y: Tally, r: Rest| #[trigger]
        crate::order_rules::bid_closed(d, ctx, order, e, b, y, r) == crate::order_rules::bid_closed(
            d,
            ctx,
            other,
            e,
            b,
            y,
            r,
        ) by {
        reveal(crate::order_rules::bid_closed);
    }
    assert forall|d: Desk, e: i64, y: Tally, r: Rest| #[trigger]
        crate::order_rules::ask_closed(d, ctx, order, e, y, r) == crate::order_rules::ask_closed(
            d,
            ctx,
            other,
            e,
            y,
            r,
        ) by {
        reveal(crate::order_rules::ask_closed);
    }
}

/// What is left of a limit order is posted if the order says so, and is in the book then under the
/// key that is returned; else no order is added. A bid that is posted gets or posts all that it asks
/// for, and an ask that is posted sells or posts all that it offers; no ask sends more.
#[verifier::rlimit(30)]
pub proof fn law_rest_is_posted_or_dropped(ledger: Ledger, ctx: OrderContext, side: Side, order: LimitOrder, new_log: (Pubkey, nat))
    requires
        ledger.has_books(),
        !order.preview,
    ensures
        crate::order_rules::limit(ledger, ctx, side, order, new_log) matches Ok(placed) ==> {
            let result = placed.result;
            let orders = placed.desk.ledger.side(side);
            &&& !order.post ==> orders == ledger.side(side) && result.posted_quantity == 0
                && result.order_id == 0
            &&& result.posted_quantity == 0 ==> orders == ledger.side(side)
            &&& result.posted_quantity > 0 ==> orders.contains_key(result.order_id)
                && orders[result.order_id].owner == ctx.user
                && orders[result.order_id].value.amount == result.posted_quantity
                && crate::order_book::key_price(result.order_id) == order.price
            &&& side == Side::Bid && order.post ==> result.tokens_received + result.posted_quantity
                == order.quantity
            &&& side == Side::Ask ==> result.tokens_sent <= order.quantity
            &&& side == Side::Ask && order.post ==> result.tokens_sent == order.quantity
        },
{
    if crate::order_rules::limit(ledger, ctx, side, order, new_log) is Ok {
        let desk0 = Desk { ledger, purse: ctx.purse, new_log: None };
        let desk = crate::order_rules::readied(desk0, ctx, order.rollover, new_log)->Ok_0;
        assert(desk.ledger.bids == ledger.bids && desk.ledger.asks == ledger.asks) by {
            reveal(crate::order_rules::readied);
        }
        let expiry = crate::order_rules::expiry_of(ctx.market, order.expires, ctx.now)->Ok_0;
        let taker = crate::order_rules::limit_taker(ctx, side, order);
        assert(!taker.preview && taker.side == side && taker.user == ctx.user) by {
            reveal(crate::order_rules::limit_taker);
        }
        let brings = crate::order_rules::brought(side, order, taker.factor)->Ok_0;
        let opened = crate::order_rules::limit_opened(desk.ledger, ctx, side, order, brings)->Ok_0;
        assert(opened.bids == ledger.bids && opened.asks == ledger.asks) by {
            reveal(crate::order_rules::limit_opened);
        }
        assert(opened.side(side) == ledger.side(side));
        assert(opened.side(side.spec_opposite()) == ledger.side(side.spec_opposite()));
        opened.lemma_matched_within(taker, order.quantity);
        let walked = opened.matched(taker, order.quantity)->Ok_0;
        let swept = crate::order_rules::cleared(walked.ledger, taker, walked.expired)->Ok_0;
        assert(swept.side(side) == ledger.side(side)) by {
            reveal(crate::order_rules::cleared);
            walked.ledger.lemma_swept_within(taker, walked.expired, 0);
        }
        let rest = crate::order_rules::limit_rest(swept, taker, order, expiry, walked.tally)->Ok_0;
        assert({
            &&& order.post ==> rest.posted_quantity + walked.tally.filled == order.quantity
            &&& !order.post ==> rest.posted_quantity == 0
            &&& rest.posted_quantity == 0 ==> rest.ledger.side(side) == ledger.side(side) && rest.order_id
                == 0
            &&& rest.posted_quantity > 0 ==> rest.ledger.side(side).contains_key(rest.order_id)
                && rest.ledger.side(side)[rest.order_id].owner == ctx.user
                && rest.ledger.side(side)[rest.order_id].value.amount == rest.posted_quantity
                && crate::order_book::key_price(rest.order_id) == order.price
        }) by {
            reveal(crate::order_rules::limit_rest);
            reveal(Ledger::posted);
            crate::ledger::lemma_order_key(side, order.price, swept.state.order_counter);
        }
        match side {
            Side::Bid => {
                reveal(crate::order_rules::bid_closed);
            },
            Side::Ask => {
                reveal(crate::order_rules::ask_closed);
            },
        }
    }
}

/// In a market of full self-custody, whose manager may neither cancel nor withdraw, no request of
/// the manager to do so goes through.
#[verifier::rlimit(30)]
pub proof fn law_self_custody(
    books: BooksView,
    cancel: ManagerCancelOrder,
    side: u8,
    id: u128,
    rollover: bool,
    new_log: (Pubkey, nat),
    state: MarketState,
    log: LogView,
    around: LogNeighbours,
    withdraw: ManagerWithdraw,
    vault: UserVault,
    empty: ManagerVaultWithdraw,
)
    ensures
        !cancel.market.manager_cancel ==> books.manager_cancelled(cancel, side, id, rollover, new_log)
            == Err::<Returned, ErrorCode>(ErrorCode::AccessDenied),
        !withdraw.market.manager_withdraw ==> crate::withdraw::manager_withdrawn(
            state,
            log,
            around,
            withdraw,
        ) == Err::<Withdrawn, ErrorCode>(ErrorCode::AccessDenied),
        !empty.accounts.market.manager_withdraw ==> crate::vault::manager_vault_withdrawn(
            state,
            vault,
            empty,
        ) == Err::<Emptied, ErrorCode>(ErrorCode::AccessDenied),
{
}

/// A request to remove an expired order leaves the book as it is where the order has not expired,
/// and else takes only that order out.
#[verifier::rlimit(30)]
pub proof fn law_only_expired_orders_are_removed(
    books: BooksView,
    ctx: ExpireOrder,
    side: u8,
    id: u128,
    rollover: bool,
    new_log: (Pubkey, nat),
)
    ensures
        books.expired(ctx, side, id, rollover, new_log) matches Ok(r) ==> {
            let s = Side::spec_of(side)->Some_0;
            let gone = crate::ledger::is_expired(books.side(s)[id].value, ctx.now);
            &&& books.side(s).contains_key(id)
            &&& r.books.side(s) == if gone {
                books.side(s).remove(id)
            } else {
                books.side(s)
            }
            &&& r.books.side(s.spec_opposite()) == books.side(s.spec_opposite())
        },
{
}

/// A thousand units of a commission rate are one basis point.
pub proof fn law_rate_of_a_basis_point(amount: u64)
    ensures
        crate::math::commission(1000, amount) == Ok::<u64, ErrorCode>((amount as int / 10000) as u64),
{
    assert((amount as int * 1000) / 10000000 == amount as int / 10000) by (nonlinear_arith)
        requires
            amount >= 0,
    ;
}

} // verus!
