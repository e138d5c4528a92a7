//! What the totals of the vaults follow: they change by the tokens that come in and go out, and by
//! nothing else.
use crate::cancel::{BooksView, CancelOrder, ExpireOrder, ManagerCancelOrder};
use crate::context::{LimitOrder, MarketOrder, OrderContext, Transfer};
use crate::ledger::{Ledger, Taker, Tally};
use crate::manager::ManagerWithdrawFees;
use crate::market::{MarketState, Side, UserVault};
use crate::order_rules::{Desk, Placed, Rest};
use crate::pubkey::Pubkey;
use crate::records::Order;
use crate::settlement::LogView;
use crate::shelf::Kept;
use crate::vault::{ManagerVaultWithdraw, VaultDeposit, VaultWithdraw};
use crate::withdraw::{LogNeighbours, ManagerWithdraw, Withdraw};
use vstd::prelude::*;

verus! {

/// The tokens that a transfer moves, if there is one.
pub open spec fn tokens_of(transfer: Option<Transfer>) -> int {
    match transfer {
        Some(t) => t.amount as int,
        None => 0,
    }
}

impl MarketState {
    /// Whether the totals of the vaults are higher by `mkt` and `prc` in `other`.
    pub open spec fn gains(self, other: MarketState, mkt: int, prc: int) -> bool {
        &&& other.mkt_vault_balance == self.mkt_vault_balance + mkt
        &&& other.prc_vault_balance == self.prc_vault_balance + prc
    }

    /// Whether the totals of the vaults have followed the transfers of an order: it is paid for in
    /// the one token, and pays out the other.
    pub open spec fn follows(self, side: Side, placed: Placed) -> bool {
        let came_in = tokens_of(placed.deposit);
        let went_out = tokens_of(placed.payout);
        match side {
            Side::Bid => self.gains(placed.desk.ledger.state, -went_out, came_in),
            Side::Ask => self.gains(placed.desk.ledger.state, came_in, -went_out),
        }
    }
}

impl Placed {
    /// Whether the transfers of an order are those that its result names.
    pub open spec fn sends_what_it_says(self) -> bool {
        tokens_of(self.deposit) == self.result.tokens_sent && tokens_of(self.payout)
            == self.result.tokens_received
    }
}

impl Taker {
    /// What the vaults gain by the fills of a tally, if each fill is paid for as it is made.
    spec fn paid_for(self, tally: Tally) -> (int, int) {
        if self.preview || !self.pays_by_fill {
            (0, 0)
        } else {
            match self.side {
                Side::Bid => (0, tally.paid as int),
                Side::Ask => (tally.filled as int, 0),
            }
        }
    }
}

impl Ledger {
    proof fn lemma_walk_gains(self, taker: Taker, tally: Tally, keys: Seq<u128>, i: int, expired: Seq<u128>)
        requires
            self.walk(taker, tally, keys, i, expired) is Ok,
        ensures
            ({
                let walked = self.walk(taker, tally, keys, i, expired)->Ok_0;
                let (mkt0, prc0) = taker.paid_for(tally);
                let (mkt, prc) = taker.paid_for(walked.tally);
                self.state.gains(walked.ledger.state, mkt - mkt0, prc - prc0)
            }),
        decreases keys.len() - i,
    {
        if 0 <= i < keys.len() {
            let key = keys[i];
            let kept = self.side(taker.side.spec_opposite())[key];
            if crate::ledger::is_expired(kept.value, taker.now) {
                self.lemma_walk_gains(taker, tally, keys, i + 1, expired.push(key));
            } else if kept.owner == taker.user {
                self.lemma_walk_gains(taker, tally, keys, i + 1, expired);
            } else if crate::ledger::within_limit(
                taker.side,
                taker.limit,
                crate::order_book::key_price(key),
            ) {
                let fill = taker.fill(tally, key, kept)->Ok_0;
                let next = taker.tallied(tally, fill)->Ok_0;
                let after = if taker.preview {
                    self
                } else {
                    self.filled(taker, fill)->Ok_0
                };
                if !fill.last {
                    after.lemma_walk_gains(taker, next, keys, i + 1, expired);
                }
            }
        }
    }

    proof fn lemma_matched_gains(self, taker: Taker, to_fill: u64)
        requires
            self.matched(taker, to_fill) is Ok,
        ensures
            ({
                let walked = self.matched(taker, to_fill)->Ok_0;
                let (mkt, prc) = taker.paid_for(walked.tally);
                self.state.gains(walked.ledger.state, mkt, prc)
            }),
    {
        reveal(Ledger::matched);
        let maker = taker.side.spec_opposite();
        self.lemma_walk_gains(
            taker,
            Tally { to_fill, filled: 0, paid: 0, fee: 0 },
            crate::ledger::best_first(maker, self.side(maker)),
            0,
            Seq::empty(),
        );
    }

    proof fn lemma_swept_gains(self, taker: Taker, expired: Seq<u128>, count: nat)
        requires
            self.swept(taker, expired, count) is Ok,
        ensures
            self.state.gains(self.swept(taker, expired, count)->Ok_0.state, 0, 0),
        decreases expired.len(),
    {
        if expired.len() > 0 && count < crate::market::MAX_EXPIRATIONS {
            let after = self.expired_one(
                taker.market,
                taker.side.spec_opposite(),
                expired.last(),
                taker.factor,
                taker.now,
            )->Ok_0;
            after.lemma_swept_gains(taker, expired.drop_last(), count + 1);
        }
    }

    proof fn lemma_cleared_gains(self, taker: Taker, expired: Seq<u128>)
        requires
            crate::order_rules::cleared(self, taker, expired) is Ok,
        ensures
            self.state.gains(crate::order_rules::cleared(self, taker, expired)->Ok_0.state, 0, 0),
    {
        reveal(crate::order_rules::cleared);
        if !taker.preview {
            self.lemma_swept_gains(taker, expired, 0);
        }
    }

    proof fn lemma_rest_gains(self, taker: Taker, order: LimitOrder, expiry: i64, tally: Tally)
        requires
            crate::order_rules::limit_rest(self, taker, order, expiry, tally) is Ok,
        ensures
            self.state.gains(
                crate::order_rules::limit_rest(self, taker, order, expiry, tally)->Ok_0.ledger.state,
                0,
                0,
            ),
    {
        reveal(crate::order_rules::limit_rest);
        reveal(Ledger::posted);
    }
}

proof fn lemma_limit_closed_gains(
    desk: Desk,
    ctx: OrderContext,
    order: LimitOrder,
    expiry: i64,
    brings: u64,
    tally: Tally,
    rest: Rest,
)
    requires
        !order.preview,
    ensures
        crate::order_rules::bid_closed(desk, ctx, order, expiry, brings, tally, rest) matches Ok(p)
            ==> desk.ledger.state.gains(
            p.desk.ledger.state,
            -tokens_of(p.payout),
            tokens_of(p.deposit) - brings,
        ) && p.sends_what_it_says(),
        crate::order_rules::ask_closed(desk, ctx, order, expiry, tally, rest) matches Ok(p)
            ==> desk.ledger.state.gains(
            p.desk.ledger.state,
            tokens_of(p.deposit) - order.quantity,
            -tokens_of(p.payout),
        ) && p.sends_what_it_says(),
{
    reveal(crate::order_rules::bid_closed);
    reveal(crate::order_rules::ask_closed);
}

proof fn lemma_market_closed_gains(desk: Desk, ctx: OrderContext, order: MarketOrder, tally: Tally)
    requires
        !order.preview,
    ensures
        crate::order_rules::market_bid_closed(desk, ctx, order, tally) matches Ok(p)
            ==> desk.ledger.state.gains(
            p.desk.ledger.state,
            -tokens_of(p.payout),
            tokens_of(p.deposit) - tally.paid,
        ) && p.sends_what_it_says(),
        crate::order_rules::market_ask_closed(desk, ctx, order, tally) matches Ok(p)
            ==> desk.ledger.state.gains(
            p.desk.ledger.state,
            tokens_of(p.deposit) - tally.filled,
            -tokens_of(p.payout),
        ) && p.sends_what_it_says(),
{
    reveal(crate::order_rules::market_bid_closed);
    reveal(crate::order_rules::market_ask_closed);
}

proof fn lemma_readied_gains(desk: Desk, ctx: OrderContext, rollover: bool, new_log: (Pubkey, nat))
    requires
        crate::order_rules::readied(desk, ctx, rollover, new_log) is Ok,
    ensures
        desk.ledger.state.gains(
            crate::order_rules::readied(desk, ctx, rollover, new_log)->Ok_0.ledger.state,
            0,
            0,
        ),
{
    reveal(crate::order_rules::readied);
}

/// The totals of the vaults follow the transfers of a limit order: what it brings comes in, and what
/// it gets goes out.
pub proof fn law_limit_follows(ledger: Ledger, ctx: OrderContext, side: Side, order: LimitOrder, new_log: (Pubkey, nat))
    requires
        !order.preview,
    ensures
        crate::order_rules::limit(ledger, ctx, side, order, new_log) matches Ok(p)
            ==> ledger.state.follows(side, p) && p.sends_what_it_says(),
{
    if crate::order_rules::limit(ledger, ctx, side, order, new_log) is Ok {
        let desk0 = Desk { ledger, purse: ctx.purse, new_log: None };
        lemma_readied_gains(desk0, ctx, order.rollover, new_log);
        let desk = crate::order_rules::readied(desk0, ctx, order.rollover, new_log)->Ok_0;
        let expiry = crate::order_rules::expiry_of(ctx.market, order.expires, ctx.now)->Ok_0;
        let taker = crate::order_rules::limit_taker(ctx, side, order);
        assert(!taker.pays_by_fill) by {
            reveal(crate::order_rules::limit_taker);
        }
        let brings = crate::order_rules::brought(side, order, taker.factor)->Ok_0;
        let opened = crate::order_rules::limit_opened(desk.ledger, ctx, side, order, brings)->Ok_0;
        assert(side == Side::Bid ==> desk.ledger.state.gains(opened.state, 0, brings as int)) by {
            reveal(crate::order_rules::limit_opened);
        }
        assert(side == Side::Ask ==> desk.ledger.state.gains(opened.state, order.quantity as int, 0)) by {
            reveal(crate::order_rules::limit_opened);
        }
        opened.lemma_matched_gains(taker, order.quantity);
        let walked = opened.matched(taker, order.quantity)->Ok_0;
        walked.ledger.lemma_cleared_gains(taker, walked.expired);
        let swept = crate::order_rules::cleared(walked.ledger, taker, walked.expired)->Ok_0;
        swept.lemma_rest_gains(taker, order, expiry, walked.tally);
        let rest = crate::order_rules::limit_rest(swept, taker, order, expiry, walked.tally)->Ok_0;
        let last = desk.with_ledger(rest.ledger);
        lemma_limit_closed_gains(last, ctx, order, expiry, brings, walked.tally, rest);
    }
}

/// The totals of the vaults follow the transfers of a market order: what it pays comes in, and what
/// it gets goes out.
pub proof fn law_market_follows(ledger: Ledger, ctx: OrderContext, side: Side, order: MarketOrder, new_log: (Pubkey, nat))
    requires
        !order.preview,
    ensures
        crate::order_rules::market(ledger, ctx, side, order, new_log) matches Ok(p)
            ==> ledger.state.follows(side, p) && p.sends_what_it_says(),
{
    if crate::order_rules::market(ledger, ctx, side, order, new_log) is Ok {
        let desk0 = Desk { ledger, purse: ctx.purse, new_log: None };
        lemma_readied_gains(desk0, ctx, order.rollover, new_log);
        let desk = crate::order_rules::readied(desk0, ctx, order.rollover, new_log)->Ok_0;
        let taker = crate::order_rules::market_taker(ctx, side, order);
        assert(!taker.preview && taker.side == side && taker.pays_by_fill) by {
            reveal(crate::order_rules::market_taker);
        }
        let opened = desk.ledger.with_state(
            crate::order_rules::next_action(desk.ledger.state)->Ok_0,
        );
        let to_fill = if order.by_quantity {
            order.quantity
        } else {
            order.net_price
        };
        opened.lemma_matched_gains(taker, to_fill);
        let walked = opened.matched(taker, to_fill)->Ok_0;
        walked.ledger.lemma_cleared_gains(taker, walked.expired);
        let swept = crate::order_rules::cleared(walked.ledger, taker, walked.expired)->Ok_0;
        lemma_market_closed_gains(desk.with_ledger(swept), ctx, order, walked.tally);
    }
}

/// The totals of the vaults follow what an owner gets back for a cancelled order.
pub proof fn law_cancel_follows(state: MarketState, orders: Map<u128, Kept<Order>>, ctx: CancelOrder, side: Side, id: u128)
    ensures
        crate::cancel::cancelled(state, orders, ctx, side, id) matches Ok(c) ==> state.gains(
            c.state,
            -c.outcome.result.mkt_tokens,
            -c.outcome.result.prc_tokens,
        ) && c.outcome.payout.amount == c.outcome.result.mkt_tokens + c.outcome.result.prc_tokens,
{
}

proof fn lemma_order_returned_gains(books: BooksView, market: Pubkey, side: Side, id: u128, tokens: u64, now: i64)
    ensures
        books.order_returned(market, side, id, tokens, now) matches Ok(after)
            ==> books.settling.state.gains(after.settling.state, 0, 0),
{
}

proof fn lemma_log_added_gains(books: BooksView, market: Pubkey, rollover: bool, new_log: (Pubkey, nat))
    ensures
        books.log_added(market, rollover, new_log) matches Ok((after, _))
            ==> books.settling.state.gains(after.settling.state, 0, 0),
{
}

/// Where the manager cancels an order, its tokens stay in the vaults.
pub proof fn law_manager_cancel_keeps(
    books: BooksView,
    ctx: ManagerCancelOrder,
    side: u8,
    id: u128,
    rollover: bool,
    new_log: (Pubkey, nat),
)
    ensures
        books.manager_cancelled(ctx, side, id, rollover, new_log) matches Ok(r)
            ==> books.settling.state.gains(r.books.settling.state, 0, 0),
{
    if books.manager_cancelled(ctx, side, id, rollover, new_log) is Ok {
        lemma_log_added_gains(books, ctx.market_key, rollover, new_log);
        let added = books.log_added(ctx.market_key, rollover, new_log)->Ok_0.0;
        let s = Side::spec_of(side)->Some_0;
        let tokens = Ledger::held_by(
            s,
            id,
            added.side(s)[id].value,
            crate::math::units(ctx.market.mkt_decimals),
        )->Ok_0;
        lemma_order_returned_gains(added, ctx.market_key, s, id, tokens, ctx.now);
    }
}

/// Where an order has expired, its tokens stay in the vaults.
pub proof fn law_expire_keeps(
    books: BooksView,
    ctx: ExpireOrder,
    side: u8,
    id: u128,
    rollover: bool,
    new_log: (Pubkey, nat),
)
    ensures
        books.expired(ctx, side, id, rollover, new_log) matches Ok(r)
            ==> books.settling.state.gains(r.books.settling.state, 0, 0),
{
    if books.expired(ctx, side, id, rollover, new_log) is Ok {
        lemma_log_added_gains(books, ctx.market_key, rollover, new_log);
        let added = books.log_added(ctx.market_key, rollover, new_log)->Ok_0.0;
        let state = if rollover {
            crate::log_chain::reimbursed(
                added.settling.state,
                ctx.purse,
                ctx.market.log_reimburse,
            )->Ok_0.0
        } else {
            added.settling.state
        };
        let paid = added.with_state(state);
        let s = Side::spec_of(side)->Some_0;
        if crate::ledger::is_expired(paid.side(s)[id].value, ctx.now) {
            let tokens = Ledger::held_by(
                s,
                id,
                paid.side(s)[id].value,
                crate::math::units(ctx.market.mkt_decimals),
            )->Ok_0;
            lemma_order_returned_gains(paid, ctx.market_key, s, id, tokens, ctx.now);
        }
    }
}

/// The totals of the vaults follow what is withdrawn from a settlement log.
#[verifier::rlimit(30)]
pub proof fn law_withdraw_follows(
    state: MarketState,
    log: LogView,
    around: LogNeighbours,
    owner: Withdraw,
    manager: ManagerWithdraw,
)
    ensures
        crate::withdraw::withdrawn(state, log, around, owner) matches Ok(w) ==> state.gains(
            w.state,
            -tokens_of(w.outcome.mkt_payout),
            -tokens_of(w.outcome.prc_payout),
        ),
        crate::withdraw::manager_withdrawn(state, log, around, manager) matches Ok(w) ==> state.gains(
            w.state,
            -tokens_of(w.outcome.mkt_payout),
            -tokens_of(w.outcome.prc_payout),
        ),
{
}

/// The totals of the vaults follow what is withdrawn from a user vault; a deposit to a user vault
/// moves no tokens.
#[verifier::rlimit(30)]
pub proof fn law_vault_follows(
    state: MarketState,
    vault: UserVault,
    log: LogView,
    around: LogNeighbours,
    deposit: VaultDeposit,
    owner: VaultWithdraw,
    manager: ManagerVaultWithdraw,
)
    ensures
        deposit.done(state, vault, log, around) matches Ok(s) ==> state.gains(s.state, 0, 0),
        crate::vault::vault_withdrawn(state, vault, owner) matches Ok(e) ==> state.gains(
            e.state,
            -tokens_of(e.outcome.mkt_payout),
            -tokens_of(e.outcome.prc_payout),
        ),
        crate::vault::manager_vault_withdrawn(state, vault, manager) matches Ok(e) ==> state.gains(
            e.state,
            -tokens_of(e.outcome.mkt_payout),
            -tokens_of(e.outcome.prc_payout),
        ),
{
}

/// The total of the pricing tokens follows the fees that are withdrawn.
pub proof fn law_fees_follow(state: MarketState, ctx: ManagerWithdrawFees)
    ensures
        crate::manager::fees_withdrawn(state, ctx) matches Ok((after, outcome)) ==> state.gains(
            after,
            0,
            -tokens_of(outcome.payout),
        ) && tokens_of(outcome.payout) == state.prc_fees_balance && after.prc_fees_balance == 0,
{
}

} // verus!
