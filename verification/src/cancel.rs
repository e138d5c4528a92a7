//! Orders that leave the book without a trade: cancelled by their owner or by the manager, or
//! expired.
use crate::accounts::NewAccount;
use crate::context::{verify_matching_accounts, Purse, Transfer};
use crate::exchange::{count_out, log_settlement, release};
use crate::ledger::{Settling, EXPIRE_EVENT};
use crate::log_chain::{log_reimburse, log_rollover};
use crate::market::{
    CancelEvent, ErrorCode, Event, ExpireEvent, Market, MarketState, MintType, Side, WithdrawResult,
};
use crate::math::{decimal_factor, plus, scale_price};
use crate::order_book::OrderBook;
use crate::pubkey::Pubkey;
use crate::records::Order;
use crate::settlement::{LogView, SettleLog};
use crate::shelf::Kept;
use vstd::prelude::*;

verus! {

pub const CANCEL_EVENT: u128 = 80941766873992229586089855487021729071;

pub const MANAGER_CANCEL_EVENT: u128 = 149668793492806786255339444097076784738;

/// The accounts that come with the cancellation of an order by its owner.
#[derive(Clone, Copy, Debug)]
pub struct CancelOrder {
    pub market_key: Pubkey,
    pub market: Market,
    pub state_key: Pubkey,
    pub agent: Pubkey,
    pub owner: Pubkey,
    pub user_mkt_token: Pubkey,
    pub user_prc_token: Pubkey,
    pub mkt_vault: Pubkey,
    pub prc_vault: Pubkey,
    pub result: Pubkey,
    pub purse: Purse,
}

/// What the cancellation of an order comes to.
#[derive(Clone, Copy, Debug)]
pub struct CancelOutcome {
    pub result: WithdrawResult,
    pub store_result: bool,
    /// From the vault to the owner.
    pub payout: Transfer,
    pub purse: Purse,
    pub event: CancelEvent,
}

/// An order that was cancelled.
#[verifier::ext_equal]
pub struct Cancelled {
    pub state: MarketState,
    pub orders: Map<u128, Kept<Order>>,
    pub outcome: CancelOutcome,
}

/// The tokens that go back to an owner.
pub open spec fn result_of(side: Side, tokens: u64) -> WithdrawResult {
    match side {
        Side::Bid => WithdrawResult { mkt_tokens: 0, prc_tokens: tokens },
        Side::Ask => WithdrawResult { mkt_tokens: tokens, prc_tokens: 0 },
    }
}

/// The token program of the tokens that orders of a side hold.
pub open spec fn mint_of(side: Side, market: Market) -> Result<MintType, ErrorCode> {
    MintType::spec_of(
        match side {
            Side::Bid => market.prc_mint_type,
            Side::Ask => market.mkt_mint_type,
        },
    )
}

/// The cancellation of an order by its owner, who gets its tokens back and a rebate for the log
/// space that it does not need.
pub open spec fn cancelled(
    state: MarketState,
    orders: Map<u128, Kept<Order>>,
    ctx: CancelOrder,
    side: Side,
    id: u128,
) -> Result<Cancelled, ErrorCode> {
    if !orders.contains_key(id) {
        Err(ErrorCode::OrderNotFound)
    } else if orders[id].owner != ctx.owner {
        Err(ErrorCode::AccessDenied)
    } else {
        let order = orders[id].value;
        let held = crate::ledger::Ledger::held_by(
            side,
            id,
            order,
            crate::math::units(ctx.market.mkt_decimals),
        );
        match (crate::order_rules::next_action(state), held) {
            (Ok(counted), Ok(tokens)) => match crate::ledger::one_less(counted, side) {
                Err(e) => Err(e),
                Ok(fewer) => match crate::ledger::released(fewer, side == Side::Ask, tokens) {
                    Err(e) => Err(e),
                    Ok(released) => match crate::log_chain::reimbursed(released, ctx.purse, ctx.market.log_rebate) {
                        Err(e) => Err(e),
                        Ok((state, purse)) => match mint_of(side, ctx.market) {
                            Err(e) => Err(e),
                            Ok(mint_type) => Ok(
                                Cancelled {
                                    state,
                                    orders: orders.remove(id),
                                    outcome: CancelOutcome {
                                        result: result_of(side, tokens),
                                        store_result: ctx.result != ctx.owner,
                                        payout: Transfer { mint_type, amount: tokens },
                                        purse,
                                        event: CancelEvent {
                                            event_type: CANCEL_EVENT,
                                            action_id: state.action_counter,
                                            market: ctx.market_key,
                                            owner: ctx.owner,
                                            user: ctx.owner,
                                            market_token: ctx.user_mkt_token,
                                            pricing_token: ctx.user_prc_token,
                                            manager: false,
                                            order_side: side.spec_code(),
                                            order_id: id,
                                            order_price: crate::order_book::key_price(id),
                                            order_quantity: order.amount,
                                            token_withdrawn: tokens,
                                        },
                                    },
                                },
                            ),
                        },
                    },
                },
            },
            _ => Err(ErrorCode::Overflow),
        }
    }
}

/// What is wrong with the accounts of a cancellation, or with its side.
pub open spec fn cancel_error(orders_key: Pubkey, ctx: CancelOrder, side: u8) -> Option<ErrorCode> {
    if ctx.market.state != ctx.state_key || ctx.market.agent != ctx.agent || ctx.market.mkt_vault
        != ctx.mkt_vault || ctx.market.prc_vault != ctx.prc_vault || ctx.market.orders != orders_key {
        Some(ErrorCode::InvalidAccount)
    } else if Side::spec_of(side) is None {
        Some(ErrorCode::InvalidParameters)
    } else {
        None
    }
}

/// What an order holds.
pub fn tokens_held(side: Side, key: u128, order: &Order, mkt_decimals: u8) -> (r: Result<u64, ErrorCode>)
    requires
        mkt_decimals <= 19,
    ensures
        r == crate::ledger::Ledger::held_by(side, key, *order, crate::math::units(mkt_decimals)),
{
    match side {
        Side::Bid => scale_price(order.amount(), Order::price(key), decimal_factor(mkt_decimals)),
        Side::Ask => Ok(order.amount()),
    }
}

/// Cancels an order of the one who asks for it. A request that is refused changes nothing.
pub fn cancel_order(state: &mut MarketState, orders: &mut OrderBook, ctx: &CancelOrder, inp_side: u8, inp_order_id: u128) -> (r: Result<
    CancelOutcome,
    ErrorCode,
>)
    requires
        old(orders).wf(),
        ctx.market.mkt_decimals <= 19,
    ensures
        final(orders).wf(),
        match cancel_error(old(orders).key, *ctx, inp_side) {
            Some(e) => r == Err::<CancelOutcome, ErrorCode>(e),
            None => {
                let side = Side::spec_of(inp_side)->Some_0;
                match cancelled(
                    *old(state),
                    old(orders).orders(side),
                    *ctx,
                    side,
                    inp_order_id,
                ) {
                    Err(e) => r == Err::<CancelOutcome, ErrorCode>(e),
                    Ok(c) => {
                        &&& r == Ok::<CancelOutcome, ErrorCode>(c.outcome)
                        &&& *final(state) == c.state
                        &&& final(orders).orders(side) == c.orders
                        &&& old(orders).same_but(*final(orders), side)
                    },
                }
            },
        },
        r is Err ==> *final(state) == *old(state) && *final(orders) == *old(orders),
{
    verify_matching_accounts(&ctx.market.state, &ctx.state_key)?;
    verify_matching_accounts(&ctx.market.agent, &ctx.agent)?;
    verify_matching_accounts(&ctx.market.mkt_vault, &ctx.mkt_vault)?;
    verify_matching_accounts(&ctx.market.prc_vault, &ctx.prc_vault)?;
    verify_matching_accounts(&ctx.market.orders, &orders.key)?;
    let side: Side = match Side::of(inp_side) {
        Some(s) => s,
        None => {
            return Err(ErrorCode::InvalidParameters);
        },
    };
    let (leaf, order) = match orders.get(side, inp_order_id) {
        Some(found) => found,
        None => {
            return Err(ErrorCode::OrderNotFound);
        },
    };
    if leaf.owner() != ctx.owner {
        return Err(ErrorCode::AccessDenied);
    }
    let mut after: MarketState = *state;
    after.action_counter = plus(after.action_counter, 1)?;
    let order_price: u64 = Order::price(inp_order_id);
    let tokens_out: u64 = tokens_held(side, inp_order_id, &order, ctx.market.mkt_decimals)?;
    count_out(&mut after, side)?;
    release(&mut after, side == Side::Ask, tokens_out)?;
    let purse: Purse = log_reimburse(&mut after, &ctx.purse, ctx.market.log_rebate)?;
    let mint_type: MintType = MintType::of(
        match side {
            Side::Bid => ctx.market.prc_mint_type,
            Side::Ask => ctx.market.mkt_mint_type,
        },
    )?;
    let mut result = WithdrawResult { mkt_tokens: 0, prc_tokens: 0 };
    match side {
        Side::Bid => {
            result.set_prc_tokens(tokens_out);
        },
        Side::Ask => {
            result.set_mkt_tokens(tokens_out);
        },
    }
    *state = after;
    orders.remove(side, inp_order_id);
    Ok(
        CancelOutcome {
            result,
            store_result: ctx.result != ctx.owner,
            payout: Transfer { mint_type, amount: tokens_out },
            purse,
            event: CancelEvent {
                event_type: CANCEL_EVENT,
                action_id: after.action_counter,
                market: ctx.market_key,
                owner: ctx.owner,
                user: ctx.owner,
                market_token: ctx.user_mkt_token,
                pricing_token: ctx.user_prc_token,
                manager: false,
                order_side: side.code(),
                order_id: inp_order_id,
                order_price,
                order_quantity: order.amount(),
                token_withdrawn: tokens_out,
            },
        },
    )
}

/// The accounts of a market but for its trade log.
#[derive(Debug)]
pub struct Books {
    pub state: MarketState,
    pub orders: OrderBook,
    pub settle_a: SettleLog,
    pub settle_b: SettleLog,
    pub events: Vec<Event>,
}

/// What the books hold.
#[verifier::ext_equal]
pub struct BooksView {
    pub settling: Settling,
    pub orders_key: Pubkey,
    pub bids: Map<u128, Kept<Order>>,
    pub asks: Map<u128, Kept<Order>>,
}

/// An instruction on the books that went through.
#[verifier::ext_equal]
pub struct Returned {
    pub books: BooksView,
    pub new_log: Option<LogView>,
    pub purse: Purse,
    pub result: WithdrawResult,
}

/// The accounts that come with the cancellation of an order by the manager.
#[derive(Clone, Copy, Debug)]
pub struct ManagerCancelOrder {
    pub market_key: Pubkey,
    pub market: Market,
    pub state_key: Pubkey,
    pub manager: Pubkey,
    pub result: Pubkey,
    pub now: i64,
    pub purse: Purse,
}

/// The accounts that come with a request to remove an expired order.
#[derive(Clone, Copy, Debug)]
pub struct ExpireOrder {
    pub market_key: Pubkey,
    pub market: Market,
    pub now: i64,
    pub purse: Purse,
}

/// What the removal of an order comes to.
#[derive(Debug)]
pub struct ReturnOutcome {
    pub result: WithdrawResult,
    pub store_result: bool,
    pub purse: Purse,
    pub new_log: Option<SettleLog>,
}

impl BooksView {
    pub open spec fn side(self, side: Side) -> Map<u128, Kept<Order>> {
        match side {
            Side::Bid => self.bids,
            Side::Ask => self.asks,
        }
    }

    pub open spec fn with_side(self, side: Side, orders: Map<u128, Kept<Order>>) -> BooksView {
        match side {
            Side::Bid => BooksView { bids: orders, ..self },
            Side::Ask => BooksView { asks: orders, ..self },
        }
    }

    pub open spec fn with_state(self, state: MarketState) -> BooksView {
        BooksView { settling: Settling { state, ..self.settling }, ..self }
    }

    pub open spec fn reporting(self, event: Event) -> BooksView {
        BooksView {
            settling: Settling { events: self.settling.events.push(event), ..self.settling },
            ..self
        }
    }

    /// A posted order leaves the book and its tokens go to its owner's account.
    pub open spec fn order_returned(self, market: Pubkey, side: Side, id: u128, tokens: u64, now: i64) -> Result<
        BooksView,
        ErrorCode,
    > {
        match crate::order_rules::next_action(self.settling.state) {
            Err(e) => Err(e),
            Ok(state) => match (Settling { state, ..self.settling }).settle(
                market,
                self.side(side)[id].owner,
                side == Side::Ask,
                tokens,
                now,
            ) {
                Err(e) => Err(e),
                Ok(settling) => match crate::ledger::one_less(settling.state, side) {
                    Err(e) => Err(e),
                    Ok(state) => Ok(
                        (BooksView { settling, ..self }).with_state(state).with_side(
                            side,
                            self.side(side).remove(id),
                        ),
                    ),
                },
            },
        }
    }

    /// A new settlement log is put behind the last one, if one is brought and asked for.
    pub open spec fn log_added(self, market: Pubkey, rollover: bool, new_log: (Pubkey, nat)) -> Result<
        (BooksView, Option<LogView>),
        ErrorCode,
    > {
        if !rollover {
            Ok((self, None))
        } else if !self.settling.state.log_rollover {
            Err(ErrorCode::RetrySettlementAccount)
        } else {
            let (state, log_b, new_log) = crate::log_chain::rolled(
                self.settling.state,
                self.settling.log_b,
                market,
                new_log,
            );
            Ok(
                (
                    BooksView { settling: Settling { state, log_b, ..self.settling }, ..self },
                    Some(new_log),
                ),
            )
        }
    }

    /// Whether the settlement logs are those that the state names.
    pub open spec fn logs_match(self) -> bool {
        self.settling.state.settle_a == self.settling.log_a.key && self.settling.state.settle_b
            == self.settling.log_b.key
    }

    /// Whether a request of the manager comes to the point where a new settlement log is added.
    pub open spec fn manager_adds_log(self, ctx: ManagerCancelOrder, rollover: bool) -> bool {
        &&& ctx.market.manager_cancel && ctx.market.manager == ctx.manager
        &&& ctx.market.state == ctx.state_key && ctx.market.orders == self.orders_key
        &&& self.anyone_adds_log(rollover)
    }

    /// Whether a request that anyone may make comes to the point where a new settlement log is added.
    pub open spec fn anyone_adds_log(self, rollover: bool) -> bool {
        rollover && self.logs_match() && self.settling.state.log_rollover
    }

    /// The cancellation of an order by the manager: its tokens go to its owner's account.
    pub open spec fn manager_cancelled(
        self,
        ctx: ManagerCancelOrder,
        side: u8,
        id: u128,
        rollover: bool,
        new_log: (Pubkey, nat),
    ) -> Result<Returned, ErrorCode> {
        if !ctx.market.manager_cancel || ctx.market.manager != ctx.manager {
            Err(ErrorCode::AccessDenied)
        } else if ctx.market.state != ctx.state_key || ctx.market.orders != self.orders_key {
            Err(ErrorCode::InvalidAccount)
        } else if !self.logs_match() {
            Err(ErrorCode::RetrySettlementAccount)
        } else {
            match self.log_added(ctx.market_key, rollover, new_log) {
                Err(e) => Err(e),
                Ok((books, new_log)) => match Side::spec_of(side) {
                    None => Err(ErrorCode::InvalidParameters),
                    Some(side) => if !self.side(side).contains_key(id) {
                        Err(ErrorCode::OrderNotFound)
                    } else {
                        books.order_cancelled(ctx, side, id, new_log)
                    },
                },
            }
        }
    }

    pub open spec fn order_cancelled(
        self,
        ctx: ManagerCancelOrder,
        side: Side,
        id: u128,
        new_log: Option<LogView>,
    ) -> Result<Returned, ErrorCode> {
        let kept = self.side(side)[id];
        let held = crate::ledger::Ledger::held_by(
            side,
            id,
            kept.value,
            crate::math::units(ctx.market.mkt_decimals),
        );
        match held {
            Err(e) => Err(e),
            Ok(tokens) => match self.order_returned(ctx.market_key, side, id, tokens, ctx.now) {
                Err(e) => Err(e),
                Ok(books) => Ok(
                    Returned {
                        books: books.reporting(
                            Event::Cancel(
                                CancelEvent {
                                    event_type: MANAGER_CANCEL_EVENT,
                                    action_id: books.settling.state.action_counter,
                                    market: ctx.market_key,
                                    owner: kept.owner,
                                    user: ctx.manager,
                                    market_token: Pubkey::zero(),
                                    pricing_token: Pubkey::zero(),
                                    manager: true,
                                    order_side: side.spec_code(),
                                    order_id: id,
                                    order_price: crate::order_book::key_price(id),
                                    order_quantity: kept.value.amount,
                                    token_withdrawn: tokens,
                                },
                            ),
                        ),
                        new_log,
                        purse: ctx.purse,
                        result: result_of(side, tokens),
                    },
                ),
            },
        }
    }

    /// The removal of an order that has expired, at the request of anyone; one that has not
    /// expired stays.
    pub open spec fn expired(
        self,
        ctx: ExpireOrder,
        side: u8,
        id: u128,
        rollover: bool,
        new_log: (Pubkey, nat),
    ) -> Result<Returned, ErrorCode> {
        if !self.logs_match() {
            Err(ErrorCode::RetrySettlementAccount)
        } else {
            match self.log_added(ctx.market_key, rollover, new_log) {
                Err(e) => Err(e),
                Ok((books, new_log)) => {
                    let paid = if rollover {
                        crate::log_chain::reimbursed(
                            books.settling.state,
                            ctx.purse,
                            ctx.market.log_reimburse,
                        )
                    } else {
                        Ok((books.settling.state, ctx.purse))
                    };
                    match paid {
                        Err(e) => Err(e),
                        Ok((state, purse)) => match Side::spec_of(side) {
                            None => Err(ErrorCode::InvalidParameters),
                            Some(side) => if !self.side(side).contains_key(id) {
                                Err(ErrorCode::OrderNotFound)
                            } else {
                                books.with_state(state).order_expired(ctx, side, id, new_log, purse)
                            },
                        },
                    }
                },
            }
        }
    }

    /// The removal of an order, if it has expired. The report of it always names the bid side, also
    /// for an ask; the key, the price and the tokens are those of the order.
    pub open spec fn order_expired(
        self,
        ctx: ExpireOrder,
        side: Side,
        id: u128,
        new_log: Option<LogView>,
        purse: Purse,
    ) -> Result<Returned, ErrorCode> {
        let kept = self.side(side)[id];
        let nothing = WithdrawResult { mkt_tokens: 0, prc_tokens: 0 };
        if !crate::ledger::is_expired(kept.value, ctx.now) {
            Ok(Returned { books: self, new_log, purse, result: nothing })
        } else {
            match crate::ledger::Ledger::held_by(
                side,
                id,
                kept.value,
                crate::math::units(ctx.market.mkt_decimals),
            ) {
                Err(e) => Err(e),
                Ok(tokens) => match self.order_returned(ctx.market_key, side, id, tokens, ctx.now) {
                    Err(e) => Err(e),
                    Ok(books) => Ok(
                        Returned {
                            books: books.reporting(
                                Event::Expire(
                                    ExpireEvent {
                                        event_type: EXPIRE_EVENT,
                                        action_id: books.settling.state.action_counter,
                                        market: ctx.market_key,
                                        owner: kept.owner,
                                        order_side: Side::Bid.spec_code(),
                                        order_id: id,
                                        price: crate::order_book::key_price(id),
                                        quantity: kept.value.amount,
                                        tokens,
                                    },
                                ),
                            ),
                            new_log,
                            purse,
                            result: result_of(side, tokens),
                        },
                    ),
                },
            }
        }
    }
}

impl Books {
    pub open spec fn wf(self) -> bool {
        self.orders.wf() && self.settle_a.wf() && self.settle_b.wf()
    }

    /// What the books hold; how much the book has room for is left out.
    pub open spec fn view(self) -> BooksView {
        BooksView {
            settling: Settling {
                state: self.state,
                log_a: self.settle_a.view(),
                log_b: self.settle_b.view(),
                events: self.events@,
            },
            orders_key: self.orders.key,
            bids: self.orders.orders(Side::Bid),
            asks: self.orders.orders(Side::Ask),
        }
    }

    /// Whether the sides of the book can hold as many nodes as those of `other`.
    pub open spec fn same_size(self, other: Books) -> bool {
        forall|s: Side| #[trigger] self.orders.slots(s) == other.orders.slots(s)
    }

    pub fn copy(&self) -> (r: Books)
        ensures
            self.wf() ==> r.wf(),
            r.view() == self.view(),
            r.same_size(*self),
    {
        let events = self.events.clone();
        assert(events@ =~= self.events@);
        let r = Books {
            state: self.state,
            orders: self.orders.copy(),
            settle_a: self.settle_a.copy(),
            settle_b: self.settle_b.copy(),
            events,
        };
        assert(r.view() =~= self.view());
        r
    }

    /// Takes an order off the book and puts its tokens into its owner's account.
    fn return_order(&mut self, market: &Pubkey, side: Side, id: u128, owner: &Pubkey, tokens: u64, now: i64) -> (r: Result<
        (),
        ErrorCode,
    >)
        requires
            old(self).wf(),
            old(self).orders.orders(side).contains_key(id),
            old(self).orders.orders(side)[id].owner == *owner,
        ensures
            final(self).wf(),
            final(self).same_size(*old(self)),
            match old(self).view().order_returned(*market, side, id, tokens, now) {
                Ok(after) => r is Ok && final(self).view() == after,
                Err(e) => r == Err::<(), ErrorCode>(e),
            },
    {
        let ghost before = self.view();
        self.state.action_counter = plus(self.state.action_counter, 1)?;
        log_settlement(
            &mut self.state,
            &mut self.settle_a,
            &mut self.settle_b,
            &mut self.events,
            market,
            owner,
            side == Side::Ask,
            tokens,
            now,
        )?;
        count_out(&mut self.state, side)?;
        self.orders.remove(side, id);
        assert(self.view() =~= before.order_returned(*market, side, id, tokens, now)->Ok_0);
        Ok(())
    }

    /// Adds a settlement log, if one is brought.
    fn add_log(&mut self, market: &Pubkey, rollover: bool, new_log: Option<NewAccount>) -> (r: Result<
        Option<SettleLog>,
        ErrorCode,
    >)
        requires
            old(self).wf(),
            rollover && old(self).state.log_rollover ==> NewAccount::makes_log(new_log),
        ensures
            final(self).wf(),
            match old(self).view().log_added(*market, rollover, crate::order_entry::brought_log(new_log)) {
                Ok((after, log)) => r matches Ok(l) && final(self).view() == after
                    && crate::order_entry::log_view(l) == log,
                Err(e) => r == Err::<Option<SettleLog>, ErrorCode>(e),
            },
            final(self).orders == old(self).orders,
    {
        if !rollover {
            return Ok(None);
        }
        if !self.state.log_rollover {
            return Err(ErrorCode::RetrySettlementAccount);
        }
        let ghost before = self.view();
        match new_log {
            Some(account) => {
                let log = log_rollover(&mut self.state, &mut self.settle_b, market, account);
                assert(self.view() =~= before.log_added(
                    *market,
                    rollover,
                    crate::order_entry::brought_log(Some(account)),
                )->Ok_0.0);
                Ok(Some(log))
            },
            None => {
                assert(false);
                Err(ErrorCode::InternalError)
            },
        }
    }

    fn run_manager_cancel(
        &mut self,
        ctx: &ManagerCancelOrder,
        inp_side: u8,
        inp_order_id: u128,
        inp_rollover: bool,
        new_log: Option<NewAccount>,
    ) -> (r: Result<ReturnOutcome, ErrorCode>)
        requires
            old(self).wf(),
            ctx.market.mkt_decimals <= 19,
            old(self).view().manager_adds_log(*ctx, inp_rollover) ==> NewAccount::makes_log(new_log),
        ensures
            final(self).wf(),
            final(self).same_size(*old(self)),
            match old(self).view().manager_cancelled(
                *ctx,
                inp_side,
                inp_order_id,
                inp_rollover,
                crate::order_entry::brought_log(new_log),
            ) {
                Ok(done) => r matches Ok(o) && final(self).view() == done.books && o.result == done.result
                    && o.purse == done.purse && crate::order_entry::log_view(o.new_log) == done.new_log
                    && o.store_result == (ctx.result != ctx.manager),
                Err(e) => r == Err::<ReturnOutcome, ErrorCode>(e),
            },
    {
        if !ctx.market.manager_cancel {
            return Err(ErrorCode::AccessDenied);
        }
        if ctx.market.manager != ctx.manager {
            return Err(ErrorCode::AccessDenied);
        }
        verify_matching_accounts(&ctx.market.state, &ctx.state_key)?;
        verify_matching_accounts(&ctx.market.orders, &self.orders.key)?;
        if self.state.settle_a != self.settle_a.key || self.state.settle_b != self.settle_b.key {
            return Err(ErrorCode::RetrySettlementAccount);
        }
        let log: Option<SettleLog> = self.add_log(&ctx.market_key, inp_rollover, new_log)?;
        let side: Side = match Side::of(inp_side) {
            Some(s) => s,
            None => {
                return Err(ErrorCode::InvalidParameters);
            },
        };
        let (leaf, order) = match self.orders.get(side, inp_order_id) {
            Some(found) => found,
            None => {
                return Err(ErrorCode::OrderNotFound);
            },
        };
        let tokens_out: u64 = tokens_held(side, inp_order_id, &order, ctx.market.mkt_decimals)?;
        self.return_order(&ctx.market_key, side, inp_order_id, &leaf.owner, tokens_out, ctx.now)?;
        let ghost returned = self.view();
        self.events.push(
            Event::Cancel(
                CancelEvent {
                    event_type: MANAGER_CANCEL_EVENT,
                    action_id: self.state.action_counter,
                    market: ctx.market_key,
                    owner: leaf.owner,
                    user: ctx.manager,
                    market_token: Pubkey::default(),
                    pricing_token: Pubkey::default(),
                    manager: true,
                    order_side: side.code(),
                    order_id: inp_order_id,
                    order_price: Order::price(inp_order_id),
                    order_quantity: order.amount(),
                    token_withdrawn: tokens_out,
                },
            ),
        );
        assert(self.view() =~= returned.reporting(self.events@.last()));
        let mut result = WithdrawResult { mkt_tokens: 0, prc_tokens: 0 };
        match side {
            Side::Bid => {
                result.set_prc_tokens(tokens_out);
            },
            Side::Ask => {
                result.set_mkt_tokens(tokens_out);
            },
        }
        Ok(
            ReturnOutcome {
                result,
                store_result: ctx.result != ctx.manager,
                purse: ctx.purse,
                new_log: log,
            },
        )
    }

    fn run_expire(
        &mut self,
        ctx: &ExpireOrder,
        inp_side: u8,
        inp_order_id: u128,
        inp_rollover: bool,
        new_log: Option<NewAccount>,
    ) -> (r: Result<ReturnOutcome, ErrorCode>)
        requires
            old(self).wf(),
            ctx.market.mkt_decimals <= 19,
            old(self).view().anyone_adds_log(inp_rollover) ==> NewAccount::makes_log(new_log),
        ensures
            final(self).wf(),
            final(self).same_size(*old(self)),
            match old(self).view().expired(
                *ctx,
                inp_side,
                inp_order_id,
                inp_rollover,
                crate::order_entry::brought_log(new_log),
            ) {
                Ok(done) => r matches Ok(o) && final(self).view() == done.books && o.result == done.result
                    && o.purse == done.purse && crate::order_entry::log_view(o.new_log) == done.new_log
                    && !o.store_result,
                Err(e) => r == Err::<ReturnOutcome, ErrorCode>(e),
            },
    {
        if self.state.settle_a != self.settle_a.key || self.state.settle_b != self.settle_b.key {
            return Err(ErrorCode::RetrySettlementAccount);
        }
        let log: Option<SettleLog> = self.add_log(&ctx.market_key, inp_rollover, new_log)?;
        let ghost added = self.view();
        let mut purse: Purse = ctx.purse;
        if inp_rollover {
            purse = log_reimburse(&mut self.state, &ctx.purse, ctx.market.log_reimburse)?;
        }
        assert(self.view() =~= added.with_state(self.state));
        let side: Side = match Side::of(inp_side) {
            Some(s) => s,
            None => {
                return Err(ErrorCode::InvalidParameters);
            },
        };
        let (leaf, order) = match self.orders.get(side, inp_order_id) {
            Some(found) => found,
            None => {
                return Err(ErrorCode::OrderNotFound);
            },
        };
        let mut result = WithdrawResult { mkt_tokens: 0, prc_tokens: 0 };
        if order.expiry != 0 && order.expiry <= ctx.now {
            let tokens: u64 = tokens_held(side, inp_order_id, &order, ctx.market.mkt_decimals)?;
            self.return_order(&ctx.market_key, side, inp_order_id, &leaf.owner, tokens, ctx.now)?;
            let ghost returned = self.view();
            self.events.push(
                Event::Expire(
                    ExpireEvent {
                        event_type: EXPIRE_EVENT,
                        action_id: self.state.action_counter,
                        market: ctx.market_key,
                        owner: leaf.owner,
                        order_side: Side::Bid.code(),
                        order_id: inp_order_id,
                        price: Order::price(inp_order_id),
                        quantity: order.amount(),
                        tokens,
                    },
                ),
            );
            assert(self.view() =~= returned.reporting(self.events@.last()));
            match side {
                Side::Bid => {
                    result.set_prc_tokens(tokens);
                },
                Side::Ask => {
                    result.set_mkt_tokens(tokens);
                },
            }
        }
        Ok(ReturnOutcome { result, store_result: false, purse, new_log: log })
    }
}

/// Cancels an order at the manager's request; its tokens go to its owner's account in the
/// settlement log. A request that is refused changes nothing.
pub fn manager_cancel_order(
    books: &mut Books,
    ctx: &ManagerCancelOrder,
    inp_side: u8,
    inp_order_id: u128,
    inp_rollover: bool,
    new_log: Option<NewAccount>,
) -> (r: Result<ReturnOutcome, ErrorCode>)
    requires
        old(books).wf(),
        ctx.market.mkt_decimals <= 19,
        old(books).view().manager_adds_log(*ctx, inp_rollover) ==> NewAccount::makes_log(new_log),
    ensures
        final(books).wf(),
        forall|s: Side| #[trigger] final(books).orders.slots(s) == old(books).orders.slots(s),
        match old(books).view().manager_cancelled(
            *ctx,
            inp_side,
            inp_order_id,
            inp_rollover,
            crate::order_entry::brought_log(new_log),
        ) {
            Ok(done) => r matches Ok(o) && final(books).view() == done.books && o.result == done.result
                && o.purse == done.purse && crate::order_entry::log_view(o.new_log) == done.new_log
                && o.store_result == (ctx.result != ctx.manager),
            Err(e) => r == Err::<ReturnOutcome, ErrorCode>(e) && *final(books) == *old(books),
        },
{
    let mut work: Books = books.copy();
    let outcome: ReturnOutcome = work.run_manager_cancel(
        ctx,
        inp_side,
        inp_order_id,
        inp_rollover,
        new_log,
    )?;
    *books = work;
    Ok(outcome)
}

/// Removes an order if it has expired; its tokens go to its owner's account in the settlement log.
/// A request that is refused changes nothing.
pub fn expire_order(
    books: &mut Books,
    ctx: &ExpireOrder,
    inp_side: u8,
    inp_order_id: u128,
    inp_rollover: bool,
    new_log: Option<NewAccount>,
) -> (r: Result<ReturnOutcome, ErrorCode>)
    requires
        old(books).wf(),
        ctx.market.mkt_decimals <= 19,
        old(books).view().anyone_adds_log(inp_rollover) ==> NewAccount::makes_log(new_log),
    ensures
        final(books).wf(),
        forall|s: Side| #[trigger] final(books).orders.slots(s) == old(books).orders.slots(s),
        match old(books).view().expired(
            *ctx,
            inp_side,
            inp_order_id,
            inp_rollover,
            crate::order_entry::brought_log(new_log),
        ) {
            Ok(done) => r matches Ok(o) && final(books).view() == done.books && o.result == done.result
                && o.purse == done.purse && crate::order_entry::log_view(o.new_log) == done.new_log
                && !o.store_result,
            Err(e) => r == Err::<ReturnOutcome, ErrorCode>(e) && *final(books) == *old(books),
        },
{
    let mut work: Books = books.copy();
    let outcome: ReturnOutcome = work.run_expire(ctx, inp_side, inp_order_id, inp_rollover, new_log)?;
    *books = work;
    Ok(outcome)
}

} // verus!
