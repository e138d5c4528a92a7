//! What every instruction keeps of the balances: the tokens in a vault are those of the orders, of
//! the settlement logs, of the user vaults and, for pricing tokens, the fees.
use crate::cancel::{BooksView, CancelOrder, ExpireOrder, ManagerCancelOrder};
use crate::context::{LimitOrder, MarketOrder, OrderContext};
use crate::ledger::{Fill, Ledger, Taker, Tally};
use crate::log_chain::ExtendLog;
use crate::manager::{ManagerTransferSol, ManagerWithdrawFees};
use crate::market::{MarketState, Side, UserVault};
use crate::order_rules::{Desk, Rest};
use crate::pubkey::Pubkey;
use crate::records::Order;
use crate::settlement::LogView;
use crate::shelf::Kept;
use crate::vault::{ManagerVaultWithdraw, VaultDeposit, VaultWithdraw};
use crate::withdraw::{LogNeighbours, ManagerWithdraw, Withdraw};
use vstd::prelude::*;

verus! {

impl MarketState {
    /// Market tokens in the vault that no order, log or user vault accounts for.
    pub open spec fn spare_mkt(self) -> int {
        self.mkt_vault_balance - self.mkt_order_balance - self.mkt_log_balance
            - self.mkt_user_vault_balance
    }

    /// Pricing tokens in the vault that no order, log, user vault or fee accounts for.
    pub open spec fn spare_prc(self) -> int {
        self.prc_vault_balance - self.prc_order_balance - self.prc_log_balance
            - self.prc_user_vault_balance - self.prc_fees_balance
    }

    /// Whether the tokens that nothing accounts for are as many in `other`.
    pub open spec fn even_with(self, other: MarketState) -> bool {
        other.spare_mkt() == self.spare_mkt() && other.spare_prc() == self.spare_prc()
    }
}

impl Ledger {
    proof fn lemma_filled_even(self, taker: Taker, fill: Fill)
        requires
            self.filled(taker, fill) is Ok,
        ensures
            self.state.even_with(self.filled(taker, fill)->Ok_0.state),
    {
    }

    proof fn lemma_walk_even(self, taker: Taker, tally: Tally, keys: Seq<u128>, i: int, expired: Seq<u128>)
        requires
            self.walk(taker, tally, keys, i, expired) is Ok,
        ensures
            self.state.even_with(self.walk(taker, tally, keys, i, expired)->Ok_0.ledger.state),
        decreases keys.len() - i,
    {
        if 0 <= i < keys.len() {
            let key = keys[i];
            let kept = self.side(taker.side.spec_opposite())[key];
            if crate::ledger::is_expired(kept.value, taker.now) {
                self.lemma_walk_even(taker, tally, keys, i + 1, expired.push(key));
            } else if kept.owner == taker.user {
                self.lemma_walk_even(taker, tally, keys, i + 1, expired);
            } else if crate::ledger::within_limit(
                taker.side,
                taker.limit,
                crate::order_book::key_price(key),
            ) {
                let fill = taker.fill(tally, key, kept)->Ok_0;
                let next = taker.tallied(tally, fill)->Ok_0;
                let after = if taker.preview {
                    self
                } else {
                    self.lemma_filled_even(taker, fill);
                    self.filled(taker, fill)->Ok_0
                };
                if !fill.last {
                    after.lemma_walk_even(taker, next, keys, i + 1, expired);
                }
            }
        }
    }

    proof fn lemma_matched_even(self, taker: Taker, to_fill: u64)
        requires
            self.matched(taker, to_fill) is Ok,
        ensures
            self.state.even_with(self.matched(taker, to_fill)->Ok_0.ledger.state),
    {
        reveal(Ledger::matched);
        let maker = taker.side.spec_opposite();
        self.lemma_walk_even(
            taker,
            Tally { to_fill, filled: 0, paid: 0, fee: 0 },
            crate::ledger::best_first(maker, self.side(maker)),
            0,
            Seq::empty(),
        );
    }

    proof fn lemma_swept_even(self, taker: Taker, expired: Seq<u128>, count: nat)
        requires
            self.swept(taker, expired, count) is Ok,
        ensures
            self.state.even_with(self.swept(taker, expired, count)->Ok_0.state),
        decreases expired.len(),
    {
        if expired.len() > 0 && count < crate::market::MAX_EXPIRATIONS {
            let after = self.expired_one(
                taker.market,
                taker.side.spec_opposite(),
                expired.last(),
                taker.factor,
                taker.now,
            )->Ok_0;
            after.lemma_swept_even(taker, expired.drop_last(), count + 1);
        }
    }

    proof fn lemma_cleared_even(self, taker: Taker, expired: Seq<u128>)
        requires
            crate::order_rules::cleared(self, taker, expired) is Ok,
        ensures
            self.state.even_with(crate::order_rules::cleared(self, taker, expired)->Ok_0.state),
    {
        reveal(crate::order_rules::cleared);
        if !taker.preview {
            self.lemma_swept_even(taker, expired, 0);
        }
    }

    proof fn lemma_posted_even(self, taker: Taker, price: u64, order: Order)
        requires
            self.posted(taker, price, order) is Ok,
        ensures
            self.state.even_with(self.posted(taker, price, order)->Ok_0.state),
    {
        reveal(Ledger::posted);
    }

    proof fn lemma_rest_even(self, taker: Taker, order: LimitOrder, expiry: i64, tally: Tally)
        requires
            crate::order_rules::limit_rest(self, taker, order, expiry, tally) is Ok,
        ensures
            self.state.even_with(
                crate::order_rules::limit_rest(self, taker, order, expiry, tally)->Ok_0.ledger.state,
            ),
    {
        reveal(crate::order_rules::limit_rest);
        let remaining = order.quantity - tally.filled;
        if remaining > 0 && order.post && !order.preview {
            self.lemma_posted_even(taker, order.price, Order { amount: remaining as u64, expiry });
        }
    }
}

proof fn lemma_opened_even(ledger: Ledger, ctx: OrderContext, side: Side, order: LimitOrder, brings: u64)
    requires
        crate::order_rules::limit_opened(ledger, ctx, side, order, brings) is Ok,
    ensures
        ledger.state.even_with(
            crate::order_rules::limit_opened(ledger, ctx, side, order, brings)->Ok_0.state,
        ),
{
    reveal(crate::order_rules::limit_opened);
}

proof fn lemma_readied_even(desk: Desk, ctx: OrderContext, rollover: bool, new_log: (Pubkey, nat))
    requires
        crate::order_rules::readied(desk, ctx, rollover, new_log) is Ok,
    ensures
        desk.ledger.state.even_with(
            crate::order_rules::readied(desk, ctx, rollover, new_log)->Ok_0.ledger.state,
        ),
{
    reveal(crate::order_rules::readied);
}

proof fn lemma_bid_closed_even(
    desk: Desk,
    ctx: OrderContext,
    order: LimitOrder,
    expiry: i64,
    brings: u64,
    tally: Tally,
    rest: Rest,
)
    requires
        crate::order_rules::bid_closed(desk, ctx, order, expiry, brings, tally, rest) is Ok,
    ensures
        desk.ledger.state.even_with(
            crate::order_rules::bid_closed(desk, ctx, order, expiry, brings, tally, rest)->Ok_0.desk.ledger.state,
        ),
{
    reveal(crate::order_rules::bid_closed);
}

proof fn lemma_ask_closed_even(desk: Desk, ctx: OrderContext, order: LimitOrder, expiry: i64, tally: Tally, rest: Rest)
    requires
        crate::order_rules::ask_closed(desk, ctx, order, expiry, tally, rest) is Ok,
    ensures
        desk.ledger.state.even_with(
            crate::order_rules::ask_closed(desk, ctx, order, expiry, tally, rest)->Ok_0.desk.ledger.state,
        ),
{
    reveal(crate::order_rules::ask_closed);
}

proof fn lemma_market_closed_even(desk: Desk, ctx: OrderContext, order: MarketOrder, tally: Tally)
    ensures
        crate::order_rules::market_bid_closed(desk, ctx, order, tally) matches Ok(p)
            ==> desk.ledger.state.even_with(p.desk.ledger.state),
        crate::order_rules::market_ask_closed(desk, ctx, order, tally) matches Ok(p)
            ==> desk.ledger.state.even_with(p.desk.ledger.state),
{
    reveal(crate::order_rules::market_bid_closed);
    reveal(crate::order_rules::market_ask_closed);
}

/// A limit order keeps the balances even.
pub proof fn law_limit_even(ledger: Ledger, ctx: OrderContext, side: Side, order: LimitOrder, new_log: (Pubkey, nat))
    ensures
        crate::order_rules::limit(ledger, ctx, side, order, new_log) matches Ok(p)
            ==> ledger.state.even_with(p.desk.ledger.state),
{
    if crate::order_rules::limit(ledger, ctx, side, order, new_log) is Ok {
        let desk0 = Desk { ledger, purse: ctx.purse, new_log: None };
        let rollover = order.rollover && !order.preview;
        lemma_readied_even(desk0, ctx, rollover, new_log);
        let desk = crate::order_rules::readied(desk0, ctx, rollover, new_log)->Ok_0;
        let expiry = crate::order_rules::expiry_of(ctx.market, order.expires, ctx.now)->Ok_0;
        let taker = crate::order_rules::limit_taker(ctx, side, order);
        let brings = crate::order_rules::brought(side, order, taker.factor)->Ok_0;
        lemma_opened_even(desk.ledger, ctx, side, order, brings);
        let opened = crate::order_rules::limit_opened(desk.ledger, ctx, side, order, brings)->Ok_0;
        opened.lemma_matched_even(taker, order.quantity);
        let walked = opened.matched(taker, order.quantity)->Ok_0;
        walked.ledger.lemma_cleared_even(taker, walked.expired);
        let swept = crate::order_rules::cleared(walked.ledger, taker, walked.expired)->Ok_0;
        swept.lemma_rest_even(taker, order, expiry, walked.tally);
        let rest = crate::order_rules::limit_rest(swept, taker, order, expiry, walked.tally)->Ok_0;
        let last = desk.with_ledger(rest.ledger);
        match side {
            Side::Bid => lemma_bid_closed_even(last, ctx, order, expiry, brings, walked.tally, rest),
            Side::Ask => lemma_ask_closed_even(last, ctx, order, expiry, walked.tally, rest),
        }
    }
}

/// A market order keeps the balances even.
pub proof fn law_market_even(ledger: Ledger, ctx: OrderContext, side: Side, order: MarketOrder, new_log: (Pubkey, nat))
    ensures
        crate::order_rules::market(ledger, ctx, side, order, new_log) matches Ok(p)
            ==> ledger.state.even_with(p.desk.ledger.state),
{
    if crate::order_rules::market(ledger, ctx, side, order, new_log) is Ok {
        let desk0 = Desk { ledger, purse: ctx.purse, new_log: None };
        let rollover = order.rollover && !order.preview;
        lemma_readied_even(desk0, ctx, rollover, new_log);
        let desk = crate::order_rules::readied(desk0, ctx, rollover, new_log)->Ok_0;
        let taker = crate::order_rules::market_taker(ctx, side, order);
        let state = if order.preview {
            desk.ledger.state
        } else {
            crate::order_rules::next_action(desk.ledger.state)->Ok_0
        };
        let opened = desk.ledger.with_state(state);
        let to_fill = if order.by_quantity {
            order.quantity
        } else {
            order.net_price
        };
        opened.lemma_matched_even(taker, to_fill);
        let walked = opened.matched(taker, to_fill)->Ok_0;
        walked.ledger.lemma_cleared_even(taker, walked.expired);
        let swept = crate::order_rules::cleared(walked.ledger, taker, walked.expired)->Ok_0;
        lemma_market_closed_even(desk.with_ledger(swept), ctx, order, walked.tally);
    }
}

/// A cancellation by the owner keeps the balances even.
pub proof fn law_cancel_even(state: MarketState, orders: Map<u128, Kept<Order>>, ctx: CancelOrder, side: Side, id: u128)
    ensures
        crate::cancel::cancelled(state, orders, ctx, side, id) matches Ok(c) ==> state.even_with(c.state),
{
}

proof fn lemma_order_returned_even(books: BooksView, market: Pubkey, side: Side, id: u128, tokens: u64, now: i64)
    ensures
        books.order_returned(market, side, id, tokens, now) matches Ok(after)
            ==> books.settling.state.even_with(after.settling.state),
{
}

proof fn lemma_log_added_even(books: BooksView, market: Pubkey, rollover: bool, new_log: (Pubkey, nat))
    ensures
        books.log_added(market, rollover, new_log) matches Ok((after, _))
            ==> books.settling.state.even_with(after.settling.state),
{
}

/// A cancellation by the manager keeps the balances even.
pub proof fn law_manager_cancel_even(
    books: BooksView,
    ctx: ManagerCancelOrder,
    side: u8,
    id: u128,
    rollover: bool,
    new_log: (Pubkey, nat),
)
    ensures
        books.manager_cancelled(ctx, side, id, rollover, new_log) matches Ok(r)
            ==> books.settling.state.even_with(r.books.settling.state),
{
    if books.manager_cancelled(ctx, side, id, rollover, new_log) is Ok {
        lemma_log_added_even(books, ctx.market_key, rollover, new_log);
        let added = books.log_added(ctx.market_key, rollover, new_log)->Ok_0.0;
        let s = Side::spec_of(side)->Some_0;
        let tokens = Ledger::held_by(
            s,
            id,
            added.side(s)[id].value,
            crate::math::units(ctx.market.mkt_decimals),
        )->Ok_0;
        lemma_order_returned_even(added, ctx.market_key, s, id, tokens, ctx.now);
    }
}

/// The removal of an expired order keeps the balances even.
pub proof fn law_expire_even(
    books: BooksView,
    ctx: ExpireOrder,
    side: u8,
    id: u128,
    rollover: bool,
    new_log: (Pubkey, nat),
)
    ensures
        books.expired(ctx, side, id, rollover, new_log) matches Ok(r)
            ==> books.settling.state.even_with(r.books.settling.state),
{
    if books.expired(ctx, side, id, rollover, new_log) is Ok {
        lemma_log_added_even(books, ctx.market_key, rollover, new_log);
        let added = books.log_added(ctx.market_key, rollover, new_log)->Ok_0.0;
        let state = if rollover {
            crate::log_chain::reimbursed(
                added.settling.state,
                ctx.purse,
                ctx.market.log_reimburse,
            )->Ok_0.0
        } else {
            added.settling.state
        };
        let paid = added.with_state(state);
        let s = Side::spec_of(side)->Some_0;
        if crate::ledger::is_expired(paid.side(s)[id].value, ctx.now) {
            let tokens = Ledger::held_by(
                s,
                id,
                paid.side(s)[id].value,
                crate::math::units(ctx.market.mkt_decimals),
            )->Ok_0;
            lemma_order_returned_even(paid, ctx.market_key, s, id, tokens, ctx.now);
        }
    }
}

/// Withdrawals from a settlement log keep the balances even.
#[verifier::rlimit(30)]
pub proof fn law_withdraw_even(
    state: MarketState,
    log: LogView,
    around: LogNeighbours,
    owner: Withdraw,
    manager: ManagerWithdraw,
)
    ensures
        crate::withdraw::withdrawn(state, log, around, owner) matches Ok(w) ==> state.even_with(w.state),
        crate::withdraw::manager_withdrawn(state, log, around, manager) matches Ok(w)
            ==> state.even_with(w.state),
{
}

/// Deposits to user vaults and withdrawals from them keep the balances even.
#[verifier::rlimit(30)]
pub proof fn law_vault_even(
    state: MarketState,
    vault: UserVault,
    log: LogView,
    around: LogNeighbours,
    deposit: VaultDeposit,
    owner: VaultWithdraw,
    manager: ManagerVaultWithdraw,
)
    ensures
        deposit.done(state, vault, log, around) matches Ok(s) ==> state.even_with(s.state),
        crate::vault::vault_withdrawn(state, vault, owner) matches Ok(e) ==> state.even_with(e.state),
        crate::vault::manager_vault_withdrawn(state, vault, manager) matches Ok(e) ==> state.even_with(
            e.state,
        ),
{
}

/// New settlement logs and transfers of lamports keep the balances even.
#[verifier::rlimit(30)]
pub proof fn law_lamports_even(
    state: MarketState,
    log_b: LogView,
    extend: ExtendLog,
    new_log: (Pubkey, nat),
    transfer: ManagerTransferSol,
    withdraw: bool,
    all: bool,
    amount: u64,
)
    ensures
        crate::log_chain::extended(state, log_b, extend, new_log) matches Ok(e) ==> state.even_with(
            e.state,
        ),
        crate::manager::sol_transferred(state, transfer, withdraw, all, amount) matches Ok((after, _))
            ==> state.even_with(after),
{
}

/// A withdrawal of fees keeps the balances even.
pub proof fn law_fees_even(state: MarketState, ctx: ManagerWithdrawFees)
    ensures
        crate::manager::fees_withdrawn(state, ctx) matches Ok((after, _)) ==> state.even_with(after),
{
}

} // verus!
