//! What becomes of an order that is cancelled or has expired, told in numbers: the owner gets back
//! what it holds, and the totals change by that.
use crate::cancel::{BooksView, CancelOrder, Cancelled, ExpireOrder, ManagerCancelOrder, Returned};
use crate::ledger::Settling;
use crate::market::{ErrorCode, MarketState, MintType, Side};
use crate::outcomes::Moves;
use crate::pubkey::Pubkey;
use crate::records::Order;
use crate::shelf::Kept;
use vstd::prelude::*;

verus! {

/// The side with a number.
pub open spec fn side_of(code: u8) -> Option<Side> {
    match code {
        0u8 => Some(Side::Bid),
        1u8 => Some(Side::Ask),
        _ => None,
    }
}

/// How the totals change where an order leaves its side and its tokens go to an account in the
/// settlement log.
pub open spec fn return_moves(side: Side, tokens: int, deposit: int) -> Moves {
    match side {
        Side::Bid => Moves {
            mkt_vault: 0,
            mkt_order: 0,
            mkt_log: 0,
            prc_vault: 0,
            prc_order: -tokens,
            prc_log: tokens,
            prc_fees: 0,
            deposit,
            bids: -1,
            asks: 0,
            orders: 0,
            actions: 1,
        },
        Side::Ask => Moves {
            mkt_vault: 0,
            mkt_order: -tokens,
            mkt_log: tokens,
            prc_vault: 0,
            prc_order: 0,
            prc_log: 0,
            prc_fees: 0,
            deposit,
            bids: 0,
            asks: -1,
            orders: 0,
            actions: 1,
        },
    }
}

/// How the totals change where an order leaves its side and its tokens leave the vault.
pub open spec fn cancel_moves(side: Side, tokens: int, rebate: int) -> Moves {
    match side {
        Side::Bid => Moves {
            mkt_vault: 0,
            mkt_order: 0,
            mkt_log: 0,
            prc_vault: -tokens,
            prc_order: -tokens,
            prc_log: 0,
            prc_fees: 0,
            deposit: -rebate,
            bids: -1,
            asks: 0,
            orders: 0,
            actions: 1,
        },
        Side::Ask => Moves {
            mkt_vault: -tokens,
            mkt_order: -tokens,
            mkt_log: 0,
            prc_vault: 0,
            prc_order: 0,
            prc_log: 0,
            prc_fees: 0,
            deposit: -rebate,
            bids: 0,
            asks: -1,
            orders: 0,
            actions: 1,
        },
    }
}

impl BooksView {
    /// The orders of a side.
    pub open spec fn along(self, side: Side) -> Map<u128, Kept<Order>> {
        match side {
            Side::Bid => self.bids,
            Side::Ask => self.asks,
        }
    }

    /// The orders of the other side.
    pub open spec fn across(self, side: Side) -> Map<u128, Kept<Order>> {
        match side {
            Side::Bid => self.asks,
            Side::Ask => self.bids,
        }
    }

    /// Whether the accounts in the settlement logs are finitely many.
    pub open spec fn has_logs(self) -> bool {
        self.settling.log_a.entries.dom().finite() && self.settling.log_b.entries.dom().finite()
    }

    /// Whether an order has left its side in `after`, and over both logs the account of its owner,
    /// and no other, has what the order held; the totals have changed by that.
    pub open spec fn gives_to_owner(self, after: BooksView, side: Side, id: u128, factor: int, deposit: int) -> bool {
        let kept = self.along(side)[id];
        let tokens = crate::refunds::value_of(side, id, kept.value, factor);
        &&& self.along(side).contains_key(id)
        &&& after.along(side) == self.along(side).remove(id)
        &&& after.across(side) == self.across(side)
        &&& after.orders_key == self.orders_key
        &&& forall|i: u128, m: bool| #[trigger]
            crate::trades::held_in(after.settling.log_a, after.settling.log_b, i, m) == crate::trades::held_in(
                self.settling.log_a,
                self.settling.log_b,
                i,
                m,
            ) + if i == crate::trades::account_of(kept.owner) && m == (side == Side::Ask) {
                tokens
            } else {
                0
            }
        &&& self.settling.state.moved_by(after.settling.state, return_moves(side, tokens, deposit))
        &&& after.settling.state.last_price == self.settling.state.last_price
        &&& after.settling.state.last_ts == self.settling.state.last_ts
    }

    /// Whether a new log is the next one in `after`, and the one that was next is the active one; or,
    /// where none is added, whether the logs are the same as before.
    pub open spec fn goes_to_next_log(self, after: BooksView, market: Pubkey, rollover: bool, new_log: (Pubkey, nat), log: Option<crate::settlement::LogView>) -> bool {
        let s = self.settling;
        let e = after.settling;
        &&& e.log_a.key == s.log_a.key
        &&& e.log_b.key == s.log_b.key
        &&& rollover ==> {
            &&& s.state.log_rollover
            &&& e.state.settle_a == s.log_b.key
            &&& e.state.settle_b == new_log.0
            &&& e.log_b.header.next == new_log.0
            &&& log is Some
            &&& log->Some_0.key == new_log.0
            &&& log->Some_0.slots == new_log.1
            &&& log->Some_0.header.market == market
            &&& log->Some_0.header.prev == s.log_b.key
            &&& log->Some_0.header.next == Pubkey::zero()
            &&& log->Some_0.header.items == 0
            &&& log->Some_0.entries.dom() == Set::<u128>::empty()
        }
        &&& !rollover ==> {
            &&& log is None
            &&& e.state.settle_a == s.state.settle_a
            &&& e.state.settle_b == s.state.settle_b
            &&& s.state.log_rollover ==> e.state.log_rollover
        }
    }

    /// Whether two more events are reported, the first of them that the owner of an order has got its
    /// tokens.
    pub open spec fn tells_owner(self, after: BooksView, market: Pubkey, side: Side, id: u128, factor: int) -> bool {
        let kept = self.along(side)[id];
        let n = self.settling.events.len() as int;
        &&& after.settling.events.len() == n + 2
        &&& forall|k: int| 0 <= k < n ==> #[trigger] after.settling.events[k] == self.settling.events[k]
        &&& crate::refunds::is_paid(
            after.settling.events[n],
            after.settling.state.action_counter,
            market,
            kept.owner,
            self.settling.log_a,
            self.settling.log_b,
            side == Side::Ask,
            crate::refunds::value_of(side, id, kept.value, factor),
        )
    }

    /// What an order that is returned does to the books.
    #[verifier::rlimit(40)]
    proof fn lemma_order_returned(self, market: Pubkey, side: Side, id: u128, factor: u64, tokens: u64, now: i64)
        requires
            self.has_logs(),
            self.along(side).contains_key(id),
            crate::ledger::Ledger::held_by(side, id, self.side(side)[id].value, factor) matches Ok(t) && t
                == tokens,
            self.order_returned(market, side, id, tokens, now) is Ok,
        ensures
            ({
                let after = self.order_returned(market, side, id, tokens, now)->Ok_0;
                &&& self.gives_to_owner(after, side, id, factor as int, 0)
                &&& after.settling.events == self.settling.events.push(after.settling.events.last())
                &&& crate::refunds::is_paid(
                    after.settling.events.last(),
                    after.settling.state.action_counter,
                    market,
                    self.along(side)[id].owner,
                    self.settling.log_a,
                    self.settling.log_b,
                    side == Side::Ask,
                    tokens as int,
                )
                &&& after.settling.log_a.key == self.settling.log_a.key
                &&& after.settling.log_b.key == self.settling.log_b.key
                &&& after.settling.log_a.header.next == self.settling.log_a.header.next
                &&& after.settling.log_b.header.next == self.settling.log_b.header.next
                &&& after.settling.state.settle_a == self.settling.state.settle_a
                &&& after.settling.state.settle_b == self.settling.state.settle_b
                &&& self.settling.state.log_rollover ==> after.settling.state.log_rollover
            }),
    {
        let after = self.order_returned(market, side, id, tokens, now)->Ok_0;
        let state = crate::order_rules::next_action(self.settling.state)->Ok_0;
        let counted = Settling { state, ..self.settling };
        assert(self.side(side) == self.along(side));
        assert(after.side(side) == after.along(side));
        counted.law_settlement(market, self.side(side)[id].owner, side == Side::Ask, tokens, now);
    }
}

/// What the manager's cancellation of an order does: the owner gets what the order holds in the
/// settlement log, a bid its quantity at its price, rounded down, an ask its quantity. That is the
/// result, and by so much the tokens of orders fall; the order leaves the book.
#[verifier::rlimit(80)]
pub proof fn law_manager_cancel(
    books: BooksView,
    ctx: ManagerCancelOrder,
    code: u8,
    id: u128,
    rollover: bool,
    new_log: (Pubkey, nat),
)
    requires
        books.has_logs(),
        ctx.market.mkt_decimals <= 19,
    ensures
        books.manager_cancelled(ctx, code, id, rollover, new_log) matches Ok(r) ==> {
            let factor = crate::outcomes::units_of(ctx.market.mkt_decimals);
            &&& side_of(code) matches Some(side) && {
                let kept = books.along(side)[id];
                let tokens = crate::refunds::value_of(side, id, kept.value, factor);
                let report = r.books.settling.events.last();
                &&& books.gives_to_owner(r.books, side, id, factor, 0)
                &&& books.goes_to_next_log(r.books, ctx.market_key, rollover, new_log, r.new_log)
                &&& books.tells_owner(r.books, ctx.market_key, side, id, factor)
                &&& r.purse == ctx.purse
                &&& side == Side::Bid ==> r.result.prc_tokens == tokens && r.result.mkt_tokens == 0
                &&& side == Side::Ask ==> r.result.mkt_tokens == tokens && r.result.prc_tokens == 0
                &&& report is Cancel
                &&& report->Cancel_0.event_type == 149668793492806786255339444097076784738
                &&& report->Cancel_0.action_id == books.settling.state.action_counter + 1
                &&& report->Cancel_0.market == ctx.market_key
                &&& report->Cancel_0.owner == kept.owner
                &&& report->Cancel_0.user == ctx.manager
                &&& report->Cancel_0.manager
                &&& report->Cancel_0.order_side == code
                &&& report->Cancel_0.order_id == id
                &&& report->Cancel_0.order_price == (id >> 64) as u64
                &&& report->Cancel_0.order_quantity == kept.value.amount
                &&& report->Cancel_0.token_withdrawn == tokens
            }
        },
{
    if books.manager_cancelled(ctx, code, id, rollover, new_log) is Ok {
        let r = books.manager_cancelled(ctx, code, id, rollover, new_log)->Ok_0;
        let side = side_of(code)->Some_0;
        crate::outcomes::lemma_units(ctx.market.mkt_decimals);
        let (added, log) = books.log_added(ctx.market_key, rollover, new_log)->Ok_0;
        let factor = crate::math::units(ctx.market.mkt_decimals);
        assert(added.along(side) == books.along(side));
        assert(books.side(side) == books.along(side));
        assert(added.side(side) == added.along(side));
        let tokens = crate::ledger::Ledger::held_by(side, id, added.side(side)[id].value, factor)->Ok_0;
        added.lemma_order_returned(ctx.market_key, side, id, factor, tokens, ctx.now);
        lemma_no_accounts();
        assert forall|i: u128, m: bool| #[trigger]
            crate::trades::held_in(added.settling.log_a, added.settling.log_b, i, m) == crate::trades::held_in(
                books.settling.log_a,
                books.settling.log_b,
                i,
                m,
            ) by {}
        assert(books.gives_to_owner(r.books, side, id, factor as int, 0));
    }
}

proof fn lemma_no_accounts()
    ensures
        Map::<u128, Kept<crate::records::AccountEntry>>::empty().dom() == Set::<u128>::empty(),
{
    assert(Map::<u128, Kept<crate::records::AccountEntry>>::empty().dom() =~= Set::<u128>::empty());
}

/// What the removal of an order at anyone's request does. One that has not expired stays, and
/// nothing is given back; one that has expired leaves the book, and the owner gets what it holds in
/// the settlement log. Who brings a new log is paid back for it.
#[verifier::rlimit(100)]
pub proof fn law_expire(
    books: BooksView,
    ctx: ExpireOrder,
    code: u8,
    id: u128,
    rollover: bool,
    new_log: (Pubkey, nat),
)
    requires
        books.has_logs(),
        ctx.market.mkt_decimals <= 19,
    ensures
        books.expired(ctx, code, id, rollover, new_log) matches Ok(r) ==> {
            let factor = crate::outcomes::units_of(ctx.market.mkt_decimals);
            let back = if rollover {
                ctx.market.log_reimburse as int
            } else {
                0
            };
            &&& r.purse.user_lamports == ctx.purse.user_lamports + back
            &&& r.purse.state_lamports == ctx.purse.state_lamports - back
            &&& books.goes_to_next_log(r.books, ctx.market_key, rollover, new_log, r.new_log)
            &&& side_of(code) matches Some(side) && {
                let kept = books.along(side)[id];
                let tokens = crate::refunds::value_of(side, id, kept.value, factor);
                &&& books.along(side).contains_key(id)
                &&& kept.value.expiry == 0 || kept.value.expiry > ctx.now ==> {
                    &&& r.result.mkt_tokens == 0
                    &&& r.result.prc_tokens == 0
                    &&& r.books.bids == books.bids
                    &&& r.books.asks == books.asks
                    &&& r.books.settling.log_a.entries == books.settling.log_a.entries
                    &&& r.books.settling.log_b.entries == books.settling.log_b.entries
                    &&& r.books.settling.events == books.settling.events
                    &&& r.books.settling.state == (MarketState {
                        settle_a: r.books.settling.state.settle_a,
                        settle_b: r.books.settling.state.settle_b,
                        log_rollover: r.books.settling.state.log_rollover,
                        log_deposit_balance: (books.settling.state.log_deposit_balance - back) as u64,
                        ..books.settling.state
                    })
                }
                &&& kept.value.expiry != 0 && kept.value.expiry <= ctx.now ==> {
                    let report = r.books.settling.events.last();
                    &&& books.gives_to_owner(r.books, side, id, factor, -back)
                    &&& books.tells_owner(r.books, ctx.market_key, side, id, factor)
                    &&& side == Side::Bid ==> r.result.prc_tokens == tokens && r.result.mkt_tokens == 0
                    &&& side == Side::Ask ==> r.result.mkt_tokens == tokens && r.result.prc_tokens == 0
                    &&& report is Expire
                    &&& report->Expire_0.event_type == 16332991664789055110548783525139174482
                    &&& report->Expire_0.action_id == books.settling.state.action_counter + 1
                    &&& report->Expire_0.market == ctx.market_key
                    &&& report->Expire_0.owner == kept.owner
                    &&& report->Expire_0.order_side == 0
                    &&& report->Expire_0.order_id == id
                    &&& report->Expire_0.price == (id >> 64) as u64
                    &&& report->Expire_0.quantity == kept.value.amount
                    &&& report->Expire_0.tokens == tokens
                }
            }
        },
{
    if books.expired(ctx, code, id, rollover, new_log) is Ok {
        let r = books.expired(ctx, code, id, rollover, new_log)->Ok_0;
        let side = side_of(code)->Some_0;
        crate::outcomes::lemma_units(ctx.market.mkt_decimals);
        lemma_no_accounts();
        let (added, log) = books.log_added(ctx.market_key, rollover, new_log)->Ok_0;
        let state = if rollover {
            crate::log_chain::reimbursed(
                added.settling.state,
                ctx.purse,
                ctx.market.log_reimburse,
            )->Ok_0.0
        } else {
            added.settling.state
        };
        let paid = added.with_state(state);
        let factor = crate::math::units(ctx.market.mkt_decimals);
        assert(paid.along(side) == books.along(side));
        assert(books.side(side) == books.along(side));
        assert(paid.side(side) == paid.along(side));
        let kept = books.along(side)[id];
        assert forall|i: u128, m: bool| #[trigger]
            crate::trades::held_in(paid.settling.log_a, paid.settling.log_b, i, m) == crate::trades::held_in(
                books.settling.log_a,
                books.settling.log_b,
                i,
                m,
            ) by {}
        if kept.value.expiry != 0 && kept.value.expiry <= ctx.now {
            let tokens = crate::ledger::Ledger::held_by(side, id, kept.value, factor)->Ok_0;
            paid.lemma_order_returned(ctx.market_key, side, id, factor, tokens, ctx.now);
            let back = if rollover {
                ctx.market.log_reimburse as int
            } else {
                0
            };
            assert(books.gives_to_owner(r.books, side, id, factor as int, -back));
        }
    }
}

/// What the cancellation of an order by its owner does: the tokens that the order holds leave the
/// vault for the owner, who also gets the rebate for log space, and the order leaves the book. No one
/// else can cancel it.
#[verifier::rlimit(60)]
pub proof fn law_cancel(state: MarketState, orders: Map<u128, Kept<Order>>, ctx: CancelOrder, side: Side, id: u128)
    requires
        ctx.market.mkt_decimals <= 19,
    ensures
        ({
            let result = crate::cancel::cancelled(state, orders, ctx, side, id);
            let kept = orders[id];
            let tokens = crate::refunds::value_of(side, id, kept.value, crate::outcomes::units_of(ctx.market.mkt_decimals));
            let mint = match side {
                Side::Bid => ctx.market.prc_mint_type,
                Side::Ask => ctx.market.mkt_mint_type,
            };
            &&& !orders.contains_key(id) ==> result == Err::<Cancelled, ErrorCode>(
                ErrorCode::OrderNotFound,
            )
            &&& orders.contains_key(id) && kept.owner != ctx.owner ==> result == Err::<
                Cancelled,
                ErrorCode,
            >(ErrorCode::AccessDenied)
            &&& result is Ok <==> {
                &&& orders.contains_key(id)
                &&& kept.owner == ctx.owner
                &&& state.action_counter < u64::MAX
                &&& side == Side::Bid ==> tokens <= state.prc_order_balance && tokens
                    <= state.prc_vault_balance && state.active_bid > 0
                &&& side == Side::Ask ==> tokens <= state.mkt_order_balance && tokens
                    <= state.mkt_vault_balance && state.active_ask > 0
                &&& ctx.market.log_rebate <= state.log_deposit_balance
                &&& ctx.market.log_rebate <= ctx.purse.state_lamports
                &&& ctx.purse.user_lamports + ctx.market.log_rebate <= u64::MAX
                &&& mint <= 1
            }
            &&& result matches Ok(c) ==> {
                &&& orders.contains_key(id)
                &&& kept.owner == ctx.owner
                &&& c.orders == orders.remove(id)
                &&& state.moved_by(c.state, cancel_moves(side, tokens, ctx.market.log_rebate as int))
                &&& c.state.settle_a == state.settle_a
                &&& c.state.settle_b == state.settle_b
                &&& c.state.log_rollover == state.log_rollover
                &&& c.state.last_price == state.last_price
                &&& c.state.last_ts == state.last_ts
                &&& c.outcome.payout.amount == tokens
                &&& mint <= 1
                &&& c.outcome.payout.mint_type == if mint == 0 {
                    MintType::SPLToken
                } else {
                    MintType::AtxSecurityToken
                }
                &&& side == Side::Bid ==> c.outcome.result.prc_tokens == tokens
                    && c.outcome.result.mkt_tokens == 0
                &&& side == Side::Ask ==> c.outcome.result.mkt_tokens == tokens
                    && c.outcome.result.prc_tokens == 0
                &&& c.outcome.purse.user_lamports == ctx.purse.user_lamports + ctx.market.log_rebate
                &&& c.outcome.purse.state_lamports == ctx.purse.state_lamports - ctx.market.log_rebate
                &&& c.outcome.store_result == (ctx.result != ctx.owner)
                &&& c.outcome.event.event_type == 80941766873992229586089855487021729071
                &&& c.outcome.event.action_id == state.action_counter + 1
                &&& c.outcome.event.market == ctx.market_key
                &&& c.outcome.event.owner == ctx.owner
                &&& c.outcome.event.user == ctx.owner
                &&& c.outcome.event.market_token == ctx.user_mkt_token
                &&& c.outcome.event.pricing_token == ctx.user_prc_token
                &&& !c.outcome.event.manager
                &&& c.outcome.event.order_side == match side {
                    Side::Bid => 0u8,
                    Side::Ask => 1u8,
                }
                &&& c.outcome.event.order_id == id
                &&& c.outcome.event.order_price == (id >> 64) as u64
                &&& c.outcome.event.order_quantity == kept.value.amount
                &&& c.outcome.event.token_withdrawn == tokens
            }
        }),
{
    crate::outcomes::lemma_units(ctx.market.mkt_decimals);
    let factor = crate::outcomes::units_of(ctx.market.mkt_decimals);
    let a = orders[id].value.amount as int;
    let p = ((id >> 64) as u64) as int;
    assert((a * p) / factor >= 0) by (nonlinear_arith)
        requires
            a >= 0,
            p >= 0,
            factor > 0,
    ;
}

/// A cancellation by the manager gives the owner of an order as many tokens as one by the owner pays
/// out, and so does its removal when it has expired.
#[verifier::rlimit(80)]
pub proof fn law_cancellations_agree(
    books: BooksView,
    manager: ManagerCancelOrder,
    anyone: ExpireOrder,
    owner: CancelOrder,
    code: u8,
    id: u128,
    rollover: bool,
    new_log: (Pubkey, nat),
)
    requires
        books.has_logs(),
        manager.market.mkt_decimals <= 19,
        owner.market.mkt_decimals == manager.market.mkt_decimals,
        anyone.market.mkt_decimals == manager.market.mkt_decimals,
        side_of(code) is Some,
    ensures
        ({
            let side = side_of(code)->Some_0;
            let kept = books.along(side)[id];
            let account = crate::trades::account_of(kept.owner);
            let ask = side == Side::Ask;
            let before = crate::trades::held_in(books.settling.log_a, books.settling.log_b, account, ask);
            crate::cancel::cancelled(
                books.settling.state,
                books.along(side),
                owner,
                side,
                id,
            ) matches Ok(c) ==> {
                &&& books.manager_cancelled(manager, code, id, rollover, new_log) matches Ok(r) ==> {
                    &&& r.result == c.outcome.result
                    &&& crate::trades::held_in(r.books.settling.log_a, r.books.settling.log_b, account, ask) == before
                        + c.outcome.payout.amount
                }
                &&& books.expired(anyone, code, id, rollover, new_log) matches Ok(r) ==> {
                    kept.value.expiry != 0 && kept.value.expiry <= anyone.now ==> {
                        &&& r.result == c.outcome.result
                        &&& crate::trades::held_in(r.books.settling.log_a, r.books.settling.log_b, account, ask)
                            == before + c.outcome.payout.amount
                    }
                }
            }
        }),
{
    let side = side_of(code)->Some_0;
    law_cancel(books.settling.state, books.along(side), owner, side, id);
    law_manager_cancel(books, manager, code, id, rollover, new_log);
    law_expire(books, anyone, code, id, rollover, new_log);
}

/// Only the manager of a market that allows it can cancel an order of someone else. Requests are
/// refused with the first thing that is wrong: the manager, the accounts, the settlement logs, a new
/// log that is not asked for, the side, or an order that is not there.
#[verifier::rlimit(30)]
pub proof fn law_removal_entry(
    books: BooksView,
    manager: ManagerCancelOrder,
    anyone: ExpireOrder,
    code: u8,
    id: u128,
    rollover: bool,
    new_log: (Pubkey, nat),
)
    ensures
        ({
            let result = books.manager_cancelled(manager, code, id, rollover, new_log);
            let s = books.settling;
            if !manager.market.manager_cancel || manager.market.manager != manager.manager {
                result == Err::<Returned, ErrorCode>(ErrorCode::AccessDenied)
            } else if manager.market.state != manager.state_key || manager.market.orders
                != books.orders_key {
                result == Err::<Returned, ErrorCode>(ErrorCode::InvalidAccount)
            } else if s.state.settle_a != s.log_a.key || s.state.settle_b != s.log_b.key || rollover
                && !s.state.log_rollover {
                result == Err::<Returned, ErrorCode>(ErrorCode::RetrySettlementAccount)
            } else if code > 1 {
                result == Err::<Returned, ErrorCode>(ErrorCode::InvalidParameters)
            } else if code == 0 && !books.bids.contains_key(id) || code == 1 && !books.asks.contains_key(id) {
                result == Err::<Returned, ErrorCode>(ErrorCode::OrderNotFound)
            } else {
                true
            }
        }),
        ({
            let result = books.expired(anyone, code, id, rollover, new_log);
            let s = books.settling;
            if s.state.settle_a != s.log_a.key || s.state.settle_b != s.log_b.key || rollover
                && !s.state.log_rollover {
                result == Err::<Returned, ErrorCode>(ErrorCode::RetrySettlementAccount)
            } else if !rollover && code > 1 {
                result == Err::<Returned, ErrorCode>(ErrorCode::InvalidParameters)
            } else if !rollover && (code == 0 && !books.bids.contains_key(id) || code == 1
                && !books.asks.contains_key(id)) {
                result == Err::<Returned, ErrorCode>(ErrorCode::OrderNotFound)
            } else {
                true
            }
        }),
{
}

impl crate::cancel::Books {
    /// What sound books hold is what these laws are about.
    pub proof fn law_books_have_logs(self)
        requires
            self.wf(),
        ensures
            self.view().has_logs(),
    {
        self.settle_a.lemma_size();
        self.settle_b.lemma_size();
    }
}

impl BooksView {
    /// Whether the settlement logs and the totals can take the tokens of an order that leaves.
    pub open spec fn can_give(self, side: Side, id: u128, factor: int) -> bool {
        let kept = self.along(side)[id];
        let account = crate::trades::account_of(kept.owner);
        let tokens = crate::refunds::value_of(side, id, kept.value, factor);
        let s = self.settling;
        let ask = side == Side::Ask;
        let active = s.log_a.entries.contains_key(account) || 2 * s.log_a.entries.len() + 1
            <= s.log_a.slots;
        let log = if active {
            s.log_a
        } else {
            s.log_b
        };
        &&& s.state.action_counter < u64::MAX
        &&& log.entries.contains_key(account) ==> crate::trades::held(log, account, ask) + tokens <= u64::MAX
        &&& !log.entries.contains_key(account) ==> 2 * log.entries.len() + 1 <= log.slots
            && log.header.items < u32::MAX
        &&& ask ==> tokens <= s.state.mkt_order_balance && s.state.mkt_log_balance + tokens <= u64::MAX
            && s.state.active_ask > 0
        &&& !ask ==> tokens <= s.state.prc_order_balance && s.state.prc_log_balance + tokens <= u64::MAX
            && s.state.active_bid > 0
    }

    #[verifier::rlimit(30)]
    proof fn lemma_can_give(self, market: Pubkey, side: Side, id: u128, factor: u64, now: i64)
        requires
            factor > 0,
        ensures
            self.can_give(side, id, factor as int) <==> {
                let held = crate::ledger::Ledger::held_by(side, id, self.side(side)[id].value, factor);
                held matches Ok(tokens) && self.order_returned(market, side, id, tokens, now) is Ok
            },
    {
        let kept = self.along(side)[id];
        assert(self.side(side) == self.along(side));
        let a = kept.value.amount as int;
        let p = ((id >> 64) as u64) as int;
        let f = factor as int;
        assert((a * p) / f >= 0) by (nonlinear_arith)
            requires
                a >= 0,
                p >= 0,
                f > 0,
        ;
        let tokens = crate::refunds::value_of(side, id, kept.value, f);
        if 0 <= tokens <= u64::MAX && self.settling.state.action_counter < u64::MAX {
            let state = crate::order_rules::next_action(self.settling.state)->Ok_0;
            let counted = Settling { state, ..self.settling };
            counted.law_settlement_goes_through(
                market,
                kept.owner,
                side == Side::Ask,
                tokens as u64,
                now,
            );
        }
    }
}

/// Where nothing is wrong with the accounts of a request, an order is removed exactly where the
/// settlement logs and the totals can take its tokens; a request on one that has not expired goes
/// through in any case.
#[verifier::rlimit(40)]
pub proof fn law_removal_goes_through(
    books: BooksView,
    manager: ManagerCancelOrder,
    anyone: ExpireOrder,
    code: u8,
    id: u128,
    new_log: (Pubkey, nat),
)
    requires
        manager.market.mkt_decimals <= 19,
        anyone.market.mkt_decimals == manager.market.mkt_decimals,
        manager.market.manager_cancel,
        manager.market.manager == manager.manager,
        manager.market.state == manager.state_key,
        manager.market.orders == books.orders_key,
        books.settling.state.settle_a == books.settling.log_a.key,
        books.settling.state.settle_b == books.settling.log_b.key,
        side_of(code) is Some,
        books.along(side_of(code)->Some_0).contains_key(id),
    ensures
        ({
            let side = side_of(code)->Some_0;
            let kept = books.along(side)[id];
            let can = books.can_give(side, id, crate::outcomes::units_of(manager.market.mkt_decimals));
            let late = kept.value.expiry != 0 && kept.value.expiry <= anyone.now;
            &&& books.manager_cancelled(manager, code, id, false, new_log) is Ok <==> can
            &&& books.expired(anyone, code, id, false, new_log) is Ok <==> (late ==> can)
        }),
{
    let side = side_of(code)->Some_0;
    crate::outcomes::lemma_units(manager.market.mkt_decimals);
    let factor = crate::math::units(manager.market.mkt_decimals);
    assert(books.side(side) == books.along(side));
    assert(books.with_state(books.settling.state) == books);
    books.lemma_can_give(manager.market_key, side, id, factor, manager.now);
    books.lemma_can_give(anyone.market_key, side, id, factor, anyone.now);
}

/// A cancellation by the owner is refused where one of the accounts is not that of the market, or the
/// side is not one.
pub proof fn law_cancel_entry(orders_key: Pubkey, ctx: CancelOrder, code: u8)
    ensures
        ({
            let error = crate::cancel::cancel_error(orders_key, ctx, code);
            let fit = {
                &&& ctx.market.state == ctx.state_key
                &&& ctx.market.agent == ctx.agent
                &&& ctx.market.mkt_vault == ctx.mkt_vault
                &&& ctx.market.prc_vault == ctx.prc_vault
                &&& ctx.market.orders == orders_key
            };
            &&& !fit ==> error == Some(ErrorCode::InvalidAccount)
            &&& fit && code > 1 ==> error == Some(ErrorCode::InvalidParameters)
            &&& fit && code <= 1 ==> error is None && Side::spec_of(code) == side_of(code)
        }),
{
}

} // verus!
