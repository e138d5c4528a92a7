//! What a new market is like, and when a limit order goes through on it.
use crate::context::{LimitOrder, OrderContext};
use crate::create::{CreateMarket, MarketSpace, NewMarket, NewVaults};
use crate::ledger::{Ledger, Taker, Tally, Walked};
use crate::log_chain::LogLink;
use crate::market::{ErrorCode, MarketState, MintType, Side};
use crate::order_rules::Desk;
use crate::pubkey::Pubkey;
use crate::records::Order;
use vstd::prelude::*;

verus! {

/// A market is opened exactly where the programs of its tokens are known and not both for security
/// tokens, the program for security tokens is the right one where it is needed, orders cannot expire
/// at once, and the vaults of ordinary tokens are those that were derived for them.
#[verifier::rlimit(30)]
pub proof fn law_terms(terms: NewMarket, ctx: CreateMarket, mkt_vault: Option<Pubkey>, prc_vault: Option<Pubkey>)
    ensures
        ({
            let result = terms.checked(ctx, mkt_vault, prc_vault);
            let known = terms.mkt_mint_type <= 1 && terms.prc_mint_type <= 1;
            let security = terms.mkt_mint_type == 1 || terms.prc_mint_type == 1;
            let program = security ==> ctx.security_program == Some(ctx.programs.security_token);
            let derived = (terms.mkt_mint_type == 0 ==> mkt_vault == Some(ctx.mkt_vault)) && (
            terms.prc_mint_type == 0 ==> prc_vault == Some(ctx.prc_vault));
            &&& result is Ok <==> known && program && derived && terms.expire_min >= 1 && !(
            terms.mkt_mint_type == 1 && terms.prc_mint_type == 1)
            &&& !known || !program ==> result == Err::<NewVaults, ErrorCode>(ErrorCode::InvalidParameters)
            &&& known && program && !derived ==> result == Err::<NewVaults, ErrorCode>(
                ErrorCode::InvalidDerivedAccount,
            )
            &&& known && program && derived && result is Err ==> result == Err::<NewVaults, ErrorCode>(
                ErrorCode::InvalidParameters,
            )
            &&& result matches Ok(vaults) ==> {
                &&& vaults.mkt == MintType::SPLToken <==> terms.mkt_mint_type == 0
                &&& vaults.prc == MintType::SPLToken <==> terms.prc_mint_type == 0
            }
        }),
{
}

/// A new market is active and has the terms and the accounts that it was opened with.
pub proof fn law_new_market(terms: NewMarket, ctx: CreateMarket, orders: Pubkey, trade_log: Pubkey, settle: Pubkey)
    ensures
        ({
            let m = terms.spec_market(ctx, orders, trade_log, settle);
            &&& m.active
            &&& m.manager_withdraw == terms.manager_withdraw
            &&& m.manager_cancel == terms.manager_cancel
            &&& m.expire_enable == terms.expire_enable
            &&& m.expire_min == terms.expire_min
            &&& m.min_quantity == terms.min_quantity
            &&& m.log_fee == terms.log_fee
            &&& m.log_rebate == terms.log_rebate
            &&& m.log_reimburse == terms.log_reimburse
            &&& m.taker_fee == terms.taker_fee
            &&& m.manager == ctx.manager
            &&& m.state == ctx.state
            &&& m.agent == ctx.agent
            &&& m.agent_nonce == terms.agent_nonce
            &&& m.mkt_mint == ctx.mkt_mint
            &&& m.mkt_vault == ctx.mkt_vault
            &&& m.mkt_nonce == terms.mkt_vault_nonce
            &&& m.mkt_decimals == terms.mkt_decimals
            &&& m.mkt_mint_type == terms.mkt_mint_type
            &&& m.prc_mint == ctx.prc_mint
            &&& m.prc_vault == ctx.prc_vault
            &&& m.prc_nonce == terms.prc_vault_nonce
            &&& m.prc_decimals == terms.prc_decimals
            &&& m.prc_mint_type == terms.prc_mint_type
            &&& m.trade_log == trade_log
            &&& m.orders == orders
            &&& m.settle_0 == settle
        }),
{
}

/// The books of a new market are empty: there are no orders, trades, accounts, tokens or lamports,
/// and nothing is asked for or counted yet. Each side has room for 250 orders, and the trade log for
/// 100 trades.
pub proof fn law_new_books(ledger: Ledger, ctx: CreateMarket, space: MarketSpace)
    requires
        crate::create::is_new(ledger, ctx, space),
    ensures
        ({
            let s = ledger.state;
            &&& s.settle_a == space.settle_a.key
            &&& s.settle_b == space.settle_b.key
            &&& !s.log_rollover
            &&& s.log_deposit_balance == 0
            &&& s.action_counter == 0
            &&& s.trade_counter == 0
            &&& s.order_counter == 0
            &&& s.active_bid == 0 && s.active_ask == 0
            &&& s.mkt_vault_balance == 0 && s.prc_vault_balance == 0
            &&& s.mkt_order_balance == 0 && s.prc_order_balance == 0
            &&& s.mkt_user_vault_balance == 0 && s.prc_user_vault_balance == 0
            &&& s.mkt_log_balance == 0 && s.prc_log_balance == 0
            &&& s.prc_fees_balance == 0
            &&& s.last_price == 0
            &&& s.last_ts == ctx.now
        }),
        forall|key: u128| !(#[trigger] ledger.bids.contains_key(key)),
        forall|key: u128| !(#[trigger] ledger.asks.contains_key(key)),
        forall|id: u128| !(#[trigger] ledger.log_a.entries.contains_key(id)),
        forall|id: u128| !(#[trigger] ledger.log_b.entries.contains_key(id)),
        ledger.bid_slots == 500,
        ledger.ask_slots == 500,
        ledger.trades.count == 0,
        ledger.trades.max == 100,
        ledger.trades.entries.len() == 100,
        ledger.orders_key == space.orders.key,
        ledger.trade_log_key == space.trade_log.key,
        ledger.log_a.key == space.settle_a.key,
        ledger.log_b.key == space.settle_b.key,
        ledger.log_a.header.market == ctx.market,
        ledger.log_b.header.market == ctx.market,
        ledger.log_a.header.prev == Pubkey::zero(),
        ledger.log_a.header.next == space.settle_b.key,
        ledger.log_b.header.prev == space.settle_a.key,
        ledger.log_b.header.next == Pubkey::zero(),
        ledger.log_a.header.items == 0,
        ledger.log_b.header.items == 0,
        ledger.events.len() == 0,
{
}

/// A log is taken out of the chain exactly where it is empty, stands between two others, and these
/// are the ones that are given and are linked with it. They are then linked with one another, and
/// where the log was the active or the next one, those behind it take its place.
#[verifier::rlimit(30)]
pub proof fn law_unlink(state: MarketState, log: LogLink, prev: LogLink, next: LogLink)
    ensures
        ({
            let result = crate::log_chain::unlinked(state, log, prev, next);
            let linked = {
                &&& log.header.prev != Pubkey::zero()
                &&& log.header.next != Pubkey::zero()
                &&& log.header.prev == prev.key
                &&& log.header.next == next.key
                &&& prev.header.next == log.key
                &&& next.header.prev == log.key
            };
            &&& log.header.items > 0 ==> result == Err::<(MarketState, LogLink, LogLink), ErrorCode>(
                ErrorCode::SettlementLogNotEmpty,
            )
            &&& log.header.items == 0 && !linked ==> result == Err::<
                (MarketState, LogLink, LogLink),
                ErrorCode,
            >(ErrorCode::InvalidAccount)
            &&& log.header.items == 0 && linked ==> result is Ok
            &&& result matches Ok((after, before, behind)) ==> {
                &&& before.key == prev.key
                &&& behind.key == next.key
                &&& before.header.next == next.key
                &&& before.header.prev == prev.header.prev
                &&& before.header.market == prev.header.market
                &&& before.header.items == prev.header.items
                &&& behind.header.prev == prev.key
                &&& behind.header.next == next.header.next
                &&& behind.header.market == next.header.market
                &&& behind.header.items == next.header.items
                &&& after == (MarketState {
                    settle_a: after.settle_a,
                    settle_b: after.settle_b,
                    ..state
                })
                &&& state.settle_a == log.key ==> after.settle_a == next.key && after.settle_b
                    == next.header.next
                &&& state.settle_a != log.key ==> after.settle_a == state.settle_a
                &&& state.settle_a != log.key && state.settle_b == log.key ==> after.settle_b == next.key
                &&& state.settle_a != log.key && state.settle_b != log.key ==> after.settle_b
                    == state.settle_b
            }
        }),
{
}

impl Ledger {
    /// The matching of an order that may trade with none of the posted ones, of which none has
    /// expired, comes to nothing.
    proof fn lemma_walk_idle(self, taker: Taker, tally: Tally, keys: Seq<u128>, i: int, expired: Seq<u128>)
        requires
            0 <= i,
            forall|j: int|
                i <= j < keys.len() ==> {
                    let posted = self.across(taker.side)[#[trigger] keys[j]];
                    &&& posted.value.expiry == 0 || posted.value.expiry > taker.now
                    &&& posted.owner == taker.user || match (taker.side, taker.limit) {
                        (Side::Bid, Some(limit)) => (keys[j] >> 64) as u64 > limit,
                        (Side::Ask, Some(limit)) => ((keys[j] >> 64) as u64) < limit,
                        _ => false,
                    }
                },
        ensures
            self.walk(taker, tally, keys, i, expired) == Ok::<Walked, ErrorCode>(
                Walked { ledger: self, tally, expired },
            ),
        decreases keys.len() - i,
    {
        assert(self.side(taker.side.spec_opposite()) == self.across(taker.side));
        if i < keys.len() {
            let kept = self.across(taker.side)[keys[i]];
            if kept.owner == taker.user {
                self.lemma_walk_idle(taker, tally, keys, i + 1, expired);
            }
        }
    }
}

/// A limit order that can trade with no order on the other side, of which none has expired, and that
/// is to be posted goes through where there is room for it on its side, the totals can take what it
/// brings, and the user has the lamports for the log.
#[verifier::rlimit(80)]
pub proof fn law_unmatched_limit_goes_through(ledger: Ledger, ctx: OrderContext, side: Side, order: LimitOrder, new_log: (Pubkey, nat))
    requires
        ledger.has_books(),
        ctx.market.mkt_decimals <= 19,
        order.quantity > 0,
        order.price > 0,
        order.post,
        !order.preview,
        !order.rollover,
        ctx.market.active,
        order.quantity >= ctx.market.min_quantity,
        crate::terms::accounts_fit(ledger, ctx),
        crate::terms::logs_fit(ledger),
        ctx.market.trade_log == ledger.trade_log_key,
        ctx.market.expire_enable && order.expires != 0 ==> order.expires > ctx.now && ctx.now
            + ctx.market.expire_min <= order.expires <= ctx.now + i64::MAX,
        forall|key: u128| #[trigger]
            ledger.across(side).contains_key(key) ==> !ledger.is_open_to(
                ctx.user,
                side,
                Some(order.price),
                ctx.now,
                key,
            ) && (ledger.across(side)[key].value.expiry == 0 || ledger.across(side)[key].value.expiry
                > ctx.now),
        2 * ledger.along(side).len() + 1 <= match side {
            Side::Bid => ledger.bid_slots,
            Side::Ask => ledger.ask_slots,
        },
        ledger.state.order_counter < u64::MAX,
        ledger.state.action_counter < u64::MAX,
        ledger.state.log_deposit_balance + ctx.market.log_fee <= u64::MAX,
        ctx.purse.user_lamports >= ctx.market.log_fee,
        ctx.purse.state_lamports + ctx.market.log_fee <= u64::MAX,
        side == Side::Bid ==> {
            let cost = (order.quantity as int * order.price as int) / crate::outcomes::units_of(ctx.market.mkt_decimals);
            &&& ledger.state.prc_vault_balance + cost <= u64::MAX
            &&& ledger.state.prc_order_balance + cost <= u64::MAX
            &&& ledger.state.active_bid < u64::MAX
            &&& ctx.market.prc_mint_type <= 1
        },
        side == Side::Ask ==> {
            &&& ledger.state.mkt_vault_balance + order.quantity <= u64::MAX
            &&& ledger.state.mkt_order_balance + order.quantity <= u64::MAX
            &&& ledger.state.active_ask < u64::MAX
            &&& ctx.market.mkt_mint_type <= 1
        },
    ensures
        crate::order_rules::limit(ledger, ctx, side, order, new_log) is Ok,
{
    crate::outcomes::lemma_units(ctx.market.mkt_decimals);
    let factor = crate::outcomes::units_of(ctx.market.mkt_decimals);
    let q = order.quantity as int;
    let price = order.price as int;
    assert((q * price) / factor >= 0) by (nonlinear_arith)
        requires
            q >= 0,
            price >= 0,
            factor > 0,
    ;
    let desk = Desk { ledger, purse: ctx.purse, new_log: None };
    assert(crate::order_rules::entry_error(ledger, ctx, Some(order.quantity)) is None) by {
        reveal(crate::order_rules::entry_error);
    }
    assert(crate::order_rules::readied(desk, ctx, false, new_log) == Ok::<Desk, ErrorCode>(desk)) by {
        reveal(crate::order_rules::readied);
    }
    assert(crate::order_rules::expiry_of(ctx.market, order.expires, ctx.now) is Ok) by {
        reveal(crate::order_rules::expiry_of);
    }
    let expiry = crate::order_rules::expiry_of(ctx.market, order.expires, ctx.now)->Ok_0;
    let taker = crate::order_rules::limit_taker(ctx, side, order);
    assert(taker.side == side && taker.factor == factor && !taker.preview && taker.user == ctx.user
        && taker.limit == Some(order.price) && taker.now == ctx.now) by {
        reveal(crate::order_rules::limit_taker);
    }
    let brings = crate::order_rules::brought(side, order, taker.factor)->Ok_0;
    assert(crate::order_rules::brought(side, order, taker.factor) is Ok);
    assert(crate::order_rules::limit_opened(ledger, ctx, side, order, brings) is Ok) by {
        reveal(crate::order_rules::limit_opened);
    }
    let opened = crate::order_rules::limit_opened(ledger, ctx, side, order, brings)->Ok_0;
    assert(opened.bids == ledger.bids && opened.asks == ledger.asks && opened.bid_slots
        == ledger.bid_slots && opened.ask_slots == ledger.ask_slots && opened.state.order_counter
        == ledger.state.order_counter && opened.state.active_bid == ledger.state.active_bid
        && opened.state.active_ask == ledger.state.active_ask && opened.state.log_deposit_balance
        == ledger.state.log_deposit_balance && opened.state.prc_fees_balance
        == ledger.state.prc_fees_balance && (side == Side::Bid ==> opened.state.prc_vault_balance
        <= u64::MAX && opened.state.prc_order_balance >= brings)) by {
        reveal(crate::order_rules::limit_opened);
    }
    let tally = Tally { to_fill: order.quantity, filled: 0, paid: 0, fee: 0 };
    let walked = Walked { ledger: opened, tally, expired: Seq::empty() };
    assert(opened.matched(taker, order.quantity) == Ok::<Walked, ErrorCode>(walked)) by {
        reveal(Ledger::matched);
        let other = side.spec_opposite();
        Ledger::lemma_best_first(other, opened.side(other));
        assert(opened.side(other) == ledger.across(side));
        let keys = crate::ledger::best_first(other, opened.side(other));
        assert forall|j: int| 0 <= j < keys.len() implies {
            let posted = opened.across(side)[#[trigger] keys[j]];
            &&& posted.value.expiry == 0 || posted.value.expiry > taker.now
            &&& posted.owner == taker.user || match (taker.side, taker.limit) {
                (Side::Bid, Some(limit)) => (keys[j] >> 64) as u64 > limit,
                (Side::Ask, Some(limit)) => ((keys[j] >> 64) as u64) < limit,
                _ => false,
            }
        } by {
            assert(ledger.across(side).contains_key(keys[j]));
        }
        opened.lemma_walk_idle(taker, tally, keys, 0, Seq::empty());
    }
    assert(crate::order_rules::cleared(opened, taker, Seq::empty()) == Ok::<Ledger, ErrorCode>(opened)) by {
        reveal(crate::order_rules::cleared);
    }
    let left = Order { amount: order.quantity, expiry };
    assert(opened.numbered()) by {
        assert forall|s: Side, k: u128| #[trigger] opened.side(s).contains_key(
            k,
        ) implies crate::ledger::key_number(s, k) < opened.state.order_counter by {
            assert(ledger.side(s).contains_key(k));
        }
    }
    opened.law_post(taker, order.price, left);
    assert(opened.posted(taker, order.price, left) is Ok);
    let after = opened.posted(taker, order.price, left)->Ok_0;
    assert(crate::order_rules::limit_rest(opened, taker, order, expiry, tally) is Ok) by {
        reveal(crate::order_rules::limit_rest);
    }
    let rest = crate::order_rules::limit_rest(opened, taker, order, expiry, tally)->Ok_0;
    assert(rest.posted_quantity == order.quantity && rest.ledger == after && (side == Side::Bid
        ==> rest.paid == brings)) by {
        reveal(crate::order_rules::limit_rest);
    }
    let last = desk.with_ledger(after);
    match side {
        Side::Bid => {
            assert(crate::order_rules::bid_closed(last, ctx, order, expiry, brings, tally, rest) is Ok) by {
                reveal(crate::order_rules::bid_closed);
            }
        },
        Side::Ask => {
            assert(crate::order_rules::ask_closed(last, ctx, order, expiry, tally, rest) is Ok) by {
                reveal(crate::order_rules::ask_closed);
            }
        },
    }
}

} // verus!
