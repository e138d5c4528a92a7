//! Limit and market orders.
use crate::accounts::NewAccount;
use crate::context::{
    perform_transfer, verify_matching_accounts, LimitOrder, MarketOrder, OrderContext, Purse,
    TradeOutcome, Transfer,
};
use crate::exchange::{deposit, keep_commission, release, take_commission, Exchange, Matched};
use crate::ledger::{Ledger, Taker, Tally};
use crate::market::{ErrorCode, Event, MarketState, MintType, OrderEvent, Side, TradeResult};
use crate::log_chain::{log_reimburse, log_rollover};
use crate::math::{decimal_factor, minus, plus, scale_price};
use crate::order_rules::{Desk, Placed, Rest};
use crate::pubkey::Pubkey;
use crate::records::Order;
use crate::settlement::SettleLog;
use vstd::prelude::*;

verus! {

/// The view of a settlement log that may be there.
pub open spec fn log_view(log: Option<SettleLog>) -> Option<crate::settlement::LogView> {
    match log {
        None => None,
        Some(l) => Some(l.view()),
    }
}

/// The key and the size of a new settlement log, if one is brought.
pub open spec fn brought_log(log: Option<NewAccount>) -> (Pubkey, nat) {
    match log {
        None => (Pubkey::zero(), 0),
        Some(account) => crate::log_chain::new_log_of(account),
    }
}

impl TradeOutcome {
    /// Whether this is the outcome of an order that went through.
    pub open spec fn shows(self, ctx: OrderContext, placed: Placed) -> bool {
        &&& self.result == placed.result
        &&& self.store_result == (ctx.result != ctx.user)
        &&& self.deposit == placed.deposit
        &&& self.payout == placed.payout
        &&& self.purse == placed.desk.purse
        &&& log_view(self.new_log) == placed.desk.new_log
    }
}

/// Checks the accounts of an order and the least quantity.
fn check_entry(exchange: &Exchange, ctx: &OrderContext, quantity: Option<u64>) -> (r: Result<(), ErrorCode>)
    ensures
        match crate::order_rules::entry_error(exchange.ledger(), *ctx, quantity) {
            None => r is Ok,
            Some(e) => r == Err::<(), ErrorCode>(e),
        },
{
    proof {
        reveal(crate::order_rules::entry_error);
    }
    if !ctx.market.active {
        return Err(ErrorCode::MarketClosed);
    }
    if let Some(q) = quantity {
        if q < ctx.market.min_quantity {
            return Err(ErrorCode::QuantityBelowMinimum);
        }
    }
    verify_matching_accounts(&ctx.market.state, &ctx.state_key)?;
    verify_matching_accounts(&ctx.market.agent, &ctx.agent)?;
    verify_matching_accounts(&ctx.market.mkt_vault, &ctx.mkt_vault)?;
    verify_matching_accounts(&ctx.market.prc_vault, &ctx.prc_vault)?;
    verify_matching_accounts(&ctx.market.orders, &exchange.orders.key)?;
    if exchange.state.settle_a != exchange.settle_a.key || exchange.state.settle_b
        != exchange.settle_b.key {
        return Err(ErrorCode::RetrySettlementAccount);
    }
    Ok(())
}

proof fn lemma_books_numbered(before: Ledger, after: Exchange)
    requires
        before.numbered(),
        after.orders.orders(Side::Bid) == before.bids,
        after.orders.orders(Side::Ask) == before.asks,
        after.state.order_counter == before.state.order_counter,
    ensures
        after.ledger().numbered(),
{
    assert forall|s: Side, k: u128| #[trigger] after.ledger().side(s).contains_key(
        k,
    ) implies crate::ledger::key_number(s, k) < after.state.order_counter by {
        assert(before.side(s).contains_key(k));
    }
}

/// Adds a new settlement log, if the order brings one.
fn make_ready(
    exchange: &mut Exchange,
    ctx: &OrderContext,
    rollover: bool,
    new_log: Option<NewAccount>,
) -> (r: Result<(Purse, Option<SettleLog>), ErrorCode>)
    requires
        old(exchange).wf(),
        rollover && old(exchange).state.log_rollover ==> NewAccount::makes_log(new_log),
    ensures
        r is Ok ==> final(exchange).wf(),
        match crate::order_rules::readied(
            Desk { ledger: old(exchange).ledger(), purse: ctx.purse, new_log: None },
            *ctx,
            rollover,
            brought_log(new_log),
        ) {
            Ok(desk) => r matches Ok((purse, log)) && final(exchange).ledger() == desk.ledger && purse
                == desk.purse && log_view(log) == desk.new_log,
            Err(e) => r == Err::<(Purse, Option<SettleLog>), ErrorCode>(e),
        },
        !rollover ==> *final(exchange) == *old(exchange),
        r is Ok ==> final(exchange).state.order_counter == old(exchange).state.order_counter,
{
    proof {
        reveal(crate::order_rules::readied);
    }
    if rollover {
        if !exchange.state.log_rollover {
            return Err(ErrorCode::RetrySettlementAccount);
        }
        let ghost before = exchange.ledger();
        match new_log {
            Some(account) => {
                let log = log_rollover(
                    &mut exchange.state,
                    &mut exchange.settle_b,
                    &ctx.market_key,
                    account,
                );
                proof {
                    lemma_books_numbered(before, *exchange);
                }
                let purse: Purse = log_reimburse(
                    &mut exchange.state,
                    &ctx.purse,
                    ctx.market.log_reimburse,
                )?;
                proof {
                    lemma_books_numbered(before, *exchange);
                    let desk = (Desk { ledger: before, purse: ctx.purse, new_log: None }).rolled_over(
                        *ctx,
                        brought_log(Some(account)),
                    )->Ok_0;
                    assert(exchange.ledger() =~= desk.ledger);
                }
                Ok((purse, Some(log)))
            },
            None => {
                assert(false);
                Err(ErrorCode::InternalError)
            },
        }
    } else {
        Ok((ctx.purse, None))
    }
}

/// When a posted order expires.
fn check_expiry(ctx: &OrderContext, expires: i64) -> (r: Result<i64, ErrorCode>)
    ensures
        r == crate::order_rules::expiry_of(ctx.market, expires, ctx.now),
{
    proof {
        reveal(crate::order_rules::expiry_of);
    }
    if ctx.market.expire_enable && expires != 0 {
        let expire_dur: i64 = expires.checked_sub(ctx.now).ok_or(ErrorCode::Overflow)?;
        if expire_dur <= 0 {
            return Err(ErrorCode::InvalidParameters);
        }
        if expire_dur < ctx.market.expire_min {
            return Err(ErrorCode::InvalidParameters);
        }
        Ok(expires)
    } else {
        Ok(0)
    }
}

fn limit_taker(ctx: &OrderContext, side: Side, order: &LimitOrder) -> (r: Taker)
    requires
        ctx.market.mkt_decimals <= 19,
    ensures
        r == crate::order_rules::limit_taker(*ctx, side, *order),
        r.factor > 0,
        r.preview == order.preview,
        r.side == side,
{
    proof {
        reveal(crate::order_rules::limit_taker);
    }
    Taker {
        market: ctx.market_key,
        user: ctx.user,
        side,
        now: ctx.now,
        factor: decimal_factor(ctx.market.mkt_decimals),
        taker_fee: ctx.market.taker_fee,
        preview: order.preview,
        limit: Some(order.price),
        by_quantity: true,
        pays_by_fill: false,
        exact_event: match side {
            Side::Bid => 207368829214137069500050352632921761096,
            Side::Ask => 325819153524900178081877579778492284961,
        },
        entire_event: match side {
            Side::Bid => 227168296477409633500015956081940497570,
            Side::Ask => 114544905925567569513505448268003180936,
        },
        partial_event: match side {
            Side::Bid => 94062763214239030578622318919331863353,
            Side::Ask => 282510189476950091999666304965232626740,
        },
    }
}

fn market_taker(ctx: &OrderContext, side: Side, order: &MarketOrder) -> (r: Taker)
    requires
        ctx.market.mkt_decimals <= 19,
    ensures
        r == crate::order_rules::market_taker(*ctx, side, *order),
        r.factor > 0,
        r.preview == order.preview,
        r.side == side,
{
    proof {
        reveal(crate::order_rules::market_taker);
    }
    Taker {
        market: ctx.market_key,
        user: ctx.user,
        side,
        now: ctx.now,
        factor: decimal_factor(ctx.market.mkt_decimals),
        taker_fee: ctx.market.taker_fee,
        preview: order.preview,
        limit: None,
        by_quantity: order.by_quantity,
        pays_by_fill: true,
        exact_event: match (side, order.by_quantity) {
            (Side::Bid, true) => 97879353062914658353780090028087623355,
            (Side::Bid, false) => 331852354717548342008417076114136032746,
            (Side::Ask, true) => 176535012143782409593813433848999612355,
            (Side::Ask, false) => 38185514874311817824997288786026180382,
        },
        entire_event: match (side, order.by_quantity) {
            (Side::Bid, true) => 98887148454935384202006639804150096432,
            (Side::Bid, false) => 30314321964017162377189412309266042294,
            (Side::Ask, true) => 277111811349020061708541382826182055538,
            (Side::Ask, false) => 48115079441646063920817461881527222742,
        },
        partial_event: match (side, order.by_quantity) {
            (Side::Bid, true) => 241528249049192735796332143519520355761,
            (Side::Bid, false) => 237563056127520713232024370460619306548,
            (Side::Ask, true) => 338129135642557935308794285239529753670,
            (Side::Ask, false) => 338446361041777477888718125403430758950,
        },
    }
}

fn count_action(state: &mut MarketState) -> (r: Result<(), ErrorCode>)
    ensures
        match crate::order_rules::next_action(*old(state)) {
            Ok(after) => r is Ok && *final(state) == after,
            Err(e) => r == Err::<(), ErrorCode>(e),
        },
{
    state.action_counter = plus(state.action_counter, 1)?;
    Ok(())
}

/// Enters what a limit order brings.
fn open_limit(exchange: &mut Exchange, ctx: &OrderContext, side: Side, order: &LimitOrder, brings: u64) -> (r: Result<
    (),
    ErrorCode,
>)
    requires
        old(exchange).wf(),
    ensures
        final(exchange).sound(),
        match crate::order_rules::limit_opened(old(exchange).ledger(), *ctx, side, *order, brings) {
            Ok(after) => r is Ok && final(exchange).ledger() == after && final(exchange).wf(),
            Err(e) => r == Err::<(), ErrorCode>(e),
        },
        r is Ok ==> final(exchange).state.order_counter == old(exchange).state.order_counter,
        order.preview ==> *final(exchange) == *old(exchange),
{
    proof {
        reveal(crate::order_rules::limit_opened);
    }
    let ghost before = exchange.ledger();
    if !order.preview {
        count_action(&mut exchange.state)?;
        deposit(&mut exchange.state, side == Side::Ask, brings)?;
    }
    verify_matching_accounts(&ctx.market.trade_log, &exchange.trade_log.key)?;
    proof {
        assert(exchange.ledger() =~= before.with_state(exchange.state));
        assert forall|s: Side, k: u128| #[trigger] exchange.ledger().side(s).contains_key(
            k,
        ) implies crate::ledger::key_number(s, k) < exchange.state.order_counter by {
            assert(before.side(s).contains_key(k));
        }
    }
    Ok(())
}

/// Removes expired orders, unless the order is only tried out.
fn clear(exchange: &mut Exchange, taker: &Taker, expired: Vec<u128>) -> (r: Result<(), ErrorCode>)
    requires
        old(exchange).sound(),
        expired@.no_duplicates(),
        forall|i: int|
            0 <= i < expired@.len() ==> old(exchange).orders.orders(
                taker.side.spec_opposite(),
            ).contains_key(#[trigger] expired@[i]),
    ensures
        final(exchange).sound(),
        match crate::order_rules::cleared(old(exchange).ledger(), *taker, expired@) {
            Ok(after) => r is Ok && final(exchange).ledger() == after,
            Err(e) => r == Err::<(), ErrorCode>(e),
        },
        taker.preview ==> *final(exchange) == *old(exchange),
{
    proof {
        reveal(crate::order_rules::cleared);
    }
    if !taker.preview {
        exchange.sweep(taker, expired)?;
    }
    Ok(())
}

/// What became of the part of a limit order that was not filled.
pub struct Remainder {
    pub paid: u64,
    pub posted_quantity: u64,
    pub order_id: u128,
}

/// Posts what is not filled.
fn post_rest(exchange: &mut Exchange, taker: &Taker, order: &LimitOrder, expiry: i64, tally: &Tally) -> (r: Result<
    Remainder,
    ErrorCode,
>)
    requires
        old(exchange).wf(),
        order.post && !order.preview ==> old(exchange).state.order_counter < u64::MAX,
    ensures
        final(exchange).sound(),
        match crate::order_rules::limit_rest(
            old(exchange).ledger(),
            *taker,
            *order,
            expiry,
            *tally,
        ) {
            Ok(rest) => r matches Ok(m) && final(exchange).ledger() == rest.ledger && m.paid == rest.paid
                && m.posted_quantity == rest.posted_quantity && m.order_id == rest.order_id
                && final(exchange).wf(),
            Err(e) => r == Err::<Remainder, ErrorCode>(e),
        },
        order.preview ==> *final(exchange) == *old(exchange),
{
    proof {
        reveal(crate::order_rules::limit_rest);
    }
    let remaining: u64 = minus(order.quantity, tally.filled)?;
    if remaining > 0 && order.fill && !order.post {
        return Err(ErrorCode::OrderNotFilled);
    }
    if remaining > 0 && order.post {
        let mut order_id: u128 = u128::MAX;
        if !order.preview {
            order_id = exchange.post(taker, order.price, &Order { amount: remaining, expiry })?;
        }
        let part: u64 = match taker.side {
            Side::Bid => scale_price(remaining, order.price, taker.factor)?,
            Side::Ask => 0,
        };
        let paid: u64 = plus(tally.paid, part)?;
        return Ok(Remainder { paid, posted_quantity: remaining, order_id });
    }
    Ok(Remainder { paid: tally.paid, posted_quantity: 0, order_id: 0 })
}

/// Plans the transfer that brings a taker's tokens.
fn bring_in(ctx: &OrderContext, mkt_token: bool, amount: u64, preview: bool) -> (r: Result<
    Option<Transfer>,
    ErrorCode,
>)
    ensures
        r == crate::order_rules::paid_in(*ctx, mkt_token, amount, preview),
{
    if mkt_token {
        let mint_type: MintType = MintType::of(ctx.market.mkt_mint_type)?;
        perform_transfer(mint_type, amount, preview, &ctx.user_mkt_token)
    } else {
        let mint_type: MintType = MintType::of(ctx.market.prc_mint_type)?;
        perform_transfer(mint_type, amount, preview, &ctx.user_prc_token)
    }
}

/// Takes the tokens that a taker gets out of the vault; a fee on them stays in it.
fn send_out(state: &mut MarketState, mkt_token: bool, amount: u64, fee: Option<u64>, mint: u8) -> (r: Result<
    Transfer,
    ErrorCode,
>)
    ensures
        match crate::order_rules::paid_out(*old(state), mkt_token, amount, fee, mint) {
            Ok((after, transfer)) => r == Ok::<Transfer, ErrorCode>(transfer) && *final(state) == after,
            Err(e) => r == Err::<Transfer, ErrorCode>(e),
        },
{
    release(state, mkt_token, amount)?;
    if let Some(f) = fee {
        keep_commission(state, f)?;
    }
    let mint_type: MintType = MintType::of(mint)?;
    Ok(Transfer { mint_type, amount })
}

fn order_event(
    ctx: &OrderContext,
    side: Side,
    event_type: u128,
    action_id: u64,
    result: &TradeResult,
    filled: bool,
    order_price: u64,
    order_quantity: u64,
    expires: i64,
) -> (r: Event)
    ensures
        r == crate::order_rules::order_event(
            *ctx,
            side,
            event_type,
            action_id,
            *result,
            filled,
            order_price,
            order_quantity,
            expires,
        ),
{
    Event::Order(
        OrderEvent {
            event_type,
            action_id,
            market: ctx.market_key,
            user: ctx.user,
            market_token: ctx.user_mkt_token.key,
            pricing_token: ctx.user_prc_token.key,
            order_side: side.code(),
            order_id: result.order_id,
            filled,
            tokens_sent: result.tokens_sent,
            tokens_received: result.tokens_received,
            tokens_fee: result.tokens_fee,
            posted: result.posted_quantity > 0,
            posted_quantity: result.posted_quantity,
            order_price,
            order_quantity,
            expires,
        },
    )
}

/// The transfers, the lamports and the result at the end of an order.
struct Closing {
    result: TradeResult,
    deposit: Option<Transfer>,
    payout: Option<Transfer>,
    purse: Purse,
}

impl Closing {
    spec fn shows(self, placed: Placed) -> bool {
        &&& self.result == placed.result
        &&& self.deposit == placed.deposit
        &&& self.payout == placed.payout
        &&& self.purse == placed.desk.purse
    }
}

/// Takes the fee for log space.
fn deposit_fee(state: &mut MarketState, purse: &Purse, log_fee: u64, ledger: Ghost<Ledger>) -> (r: Result<
    Purse,
    ErrorCode,
>)
    requires
        ledger@.state == *old(state),
    ensures
        match (Desk { ledger: ledger@, purse: *purse, new_log: None }).fee_deposited(log_fee) {
            Ok(desk) => r == Ok::<Purse, ErrorCode>(desk.purse) && *final(state) == desk.ledger.state,
            Err(e) => r == Err::<Purse, ErrorCode>(e),
        },
{
    let after: Purse = purse.pay_in(log_fee)?;
    state.log_deposit_balance = plus(state.log_deposit_balance, log_fee)?;
    Ok(after)
}

#[verifier::rlimit(40)]
fn close_bid(
    exchange: &mut Exchange,
    purse: &Purse,
    ctx: &OrderContext,
    order: &LimitOrder,
    expiry: i64,
    brings: u64,
    tally: &Tally,
    rest: &Remainder,
    new_log: Ghost<Option<crate::settlement::LogView>>,
) -> (r: Result<Closing, ErrorCode>)
    requires
        old(exchange).sound(),
    ensures
        final(exchange).sound(),
        match crate::order_rules::bid_closed(
            Desk { ledger: old(exchange).ledger(), purse: *purse, new_log: new_log@ },
            *ctx,
            *order,
            expiry,
            brings,
            *tally,
            Rest {
                ledger: old(exchange).ledger(),
                paid: rest.paid,
                posted_quantity: rest.posted_quantity,
                order_id: rest.order_id,
            },
        ) {
            Ok(placed) => r matches Ok(c) && final(exchange).ledger() == placed.desk.ledger && c.shows(
                placed,
            ) && placed.desk.new_log == new_log@,
            Err(e) => r == Err::<Closing, ErrorCode>(e),
        },
        final(exchange).orders == old(exchange).orders,
        r is Ok ==> final(exchange).state.order_counter == old(exchange).state.order_counter,
        order.preview ==> *final(exchange) == *old(exchange),
{
    proof {
        reveal(crate::order_rules::bid_closed);
    }
    let ghost before = exchange.ledger();
    let discount: u64 = minus(brings, rest.paid)?;
    let total_cost: u64 = plus(rest.paid, tally.fee)?;
    let mut purse: Purse = *purse;
    if !order.preview {
        release(&mut exchange.state, false, discount)?;
        take_commission(&mut exchange.state, tally.fee)?;
        assert(exchange.ledger() =~= before.with_state(exchange.state));
        let ghost charged = exchange.ledger();
        purse = deposit_fee(&mut exchange.state, &purse, ctx.market.log_fee, Ghost(charged))?;
        assert(exchange.ledger() =~= before.with_state(exchange.state));
    }
    let deposit: Option<Transfer> = bring_in(ctx, false, total_cost, order.preview)?;
    let result = TradeResult {
        tokens_received: tally.filled,
        tokens_sent: total_cost,
        tokens_fee: tally.fee,
        posted_quantity: rest.posted_quantity,
        order_id: rest.order_id,
    };
    let mut payout: Option<Transfer> = None;
    if tally.filled > 0 && !order.preview {
        payout = Some(
            send_out(&mut exchange.state, true, tally.filled, None, ctx.market.mkt_mint_type)?,
        );
    }
    if !order.preview {
        exchange.events.push(
            order_event(
                ctx,
                Side::Bid,
                58862986463747312203336335289809479007,
                exchange.state.action_counter,
                &result,
                order.quantity == tally.filled,
                order.price,
                order.quantity,
                expiry,
            ),
        );
        assert(exchange.ledger() =~= before.with_state(exchange.state).reporting(
            exchange.events@.last(),
        ));
    }
    Ok(Closing { result, deposit, payout, purse })
}

#[verifier::rlimit(40)]
fn close_ask(
    exchange: &mut Exchange,
    purse: &Purse,
    ctx: &OrderContext,
    order: &LimitOrder,
    expiry: i64,
    tally: &Tally,
    rest: &Remainder,
    new_log: Ghost<Option<crate::settlement::LogView>>,
) -> (r: Result<Closing, ErrorCode>)
    requires
        old(exchange).sound(),
    ensures
        final(exchange).sound(),
        match crate::order_rules::ask_closed(
            Desk { ledger: old(exchange).ledger(), purse: *purse, new_log: new_log@ },
            *ctx,
            *order,
            expiry,
            *tally,
            Rest {
                ledger: old(exchange).ledger(),
                paid: rest.paid,
                posted_quantity: rest.posted_quantity,
                order_id: rest.order_id,
            },
        ) {
            Ok(placed) => r matches Ok(c) && final(exchange).ledger() == placed.desk.ledger && c.shows(
                placed,
            ) && placed.desk.new_log == new_log@,
            Err(e) => r == Err::<Closing, ErrorCode>(e),
        },
        final(exchange).orders == old(exchange).orders,
        r is Ok ==> final(exchange).state.order_counter == old(exchange).state.order_counter,
        order.preview ==> *final(exchange) == *old(exchange),
{
    proof {
        reveal(crate::order_rules::ask_closed);
    }
    let ghost before = exchange.ledger();
    let sent: u64 = plus(tally.filled, rest.posted_quantity)?;
    let unsold: u64 = minus(order.quantity, sent)?;
    let mut purse: Purse = *purse;
    if !order.preview {
        release(&mut exchange.state, true, unsold)?;
        let ghost kept = exchange.ledger();
        assert(kept =~= before.with_state(exchange.state));
        purse = deposit_fee(&mut exchange.state, &purse, ctx.market.log_fee, Ghost(kept))?;
        assert(exchange.ledger() =~= before.with_state(exchange.state));
    }
    let deposit: Option<Transfer> = bring_in(ctx, true, sent, order.preview)?;
    let mut result = TradeResult {
        tokens_received: 0,
        tokens_sent: sent,
        tokens_fee: tally.fee,
        posted_quantity: rest.posted_quantity,
        order_id: rest.order_id,
    };
    let mut payout: Option<Transfer> = None;
    if tally.filled > 0 {
        let received: u64 = minus(tally.paid, tally.fee)?;
        result.set_tokens_received(received);
        if !order.preview {
            payout = Some(
                send_out(
                    &mut exchange.state,
                    false,
                    received,
                    Some(tally.fee),
                    ctx.market.prc_mint_type,
                )?,
            );
        }
    }
    if !order.preview {
        exchange.events.push(
            order_event(
                ctx,
                Side::Ask,
                295320270387787716737004386297471454892,
                exchange.state.action_counter,
                &result,
                order.quantity == tally.filled,
                order.price,
                order.quantity,
                expiry,
            ),
        );
        assert(exchange.ledger() =~= before.with_state(exchange.state).reporting(
            exchange.events@.last(),
        ));
    }
    Ok(Closing { result, deposit, payout, purse })
}

#[verifier::rlimit(40)]
fn close_market_bid(
    exchange: &mut Exchange,
    purse: &Purse,
    ctx: &OrderContext,
    order: &MarketOrder,
    tally: &Tally,
    new_log: Ghost<Option<crate::settlement::LogView>>,
) -> (r: Result<Closing, ErrorCode>)
    requires
        old(exchange).sound(),
    ensures
        final(exchange).sound(),
        match crate::order_rules::market_bid_closed(
            Desk { ledger: old(exchange).ledger(), purse: *purse, new_log: new_log@ },
            *ctx,
            *order,
            *tally,
        ) {
            Ok(placed) => r matches Ok(c) && final(exchange).ledger() == placed.desk.ledger && c.shows(
                placed,
            ) && placed.desk.new_log == new_log@,
            Err(e) => r == Err::<Closing, ErrorCode>(e),
        },
        final(exchange).orders == old(exchange).orders,
        r is Ok ==> final(exchange).state.order_counter == old(exchange).state.order_counter,
        order.preview ==> *final(exchange) == *old(exchange),
{
    proof {
        reveal(crate::order_rules::market_bid_closed);
    }
    let ghost before = exchange.ledger();
    let total: u64 = plus(tally.paid, tally.fee)?;
    if !order.preview {
        take_commission(&mut exchange.state, tally.fee)?;
    }
    assert(exchange.ledger() =~= before.with_state(exchange.state));
    let deposit: Option<Transfer> = bring_in(ctx, false, total, order.preview)?;
    let result = TradeResult {
        tokens_received: tally.filled,
        tokens_sent: total,
        tokens_fee: tally.fee,
        posted_quantity: 0,
        order_id: 0,
    };
    let mut payout: Option<Transfer> = None;
    if tally.filled > 0 && !order.preview {
        payout = Some(
            send_out(&mut exchange.state, true, tally.filled, None, ctx.market.mkt_mint_type)?,
        );
    }
    if !order.preview {
        let was_filled: bool = if order.by_quantity {
            tally.filled == order.quantity
        } else {
            total == order.net_price
        };
        exchange.events.push(
            order_event(
                ctx,
                Side::Bid,
                151919600483167167737000078670308605753,
                exchange.state.action_counter,
                &result,
                was_filled,
                order.net_price,
                order.quantity,
                0,
            ),
        );
        assert(exchange.ledger() =~= before.with_state(exchange.state).reporting(
            exchange.events@.last(),
        ));
    }
    Ok(Closing { result, deposit, payout, purse: *purse })
}

#[verifier::rlimit(40)]
fn close_market_ask(
    exchange: &mut Exchange,
    purse: &Purse,
    ctx: &OrderContext,
    order: &MarketOrder,
    tally: &Tally,
    new_log: Ghost<Option<crate::settlement::LogView>>,
) -> (r: Result<Closing, ErrorCode>)
    requires
        old(exchange).sound(),
    ensures
        final(exchange).sound(),
        match crate::order_rules::market_ask_closed(
            Desk { ledger: old(exchange).ledger(), purse: *purse, new_log: new_log@ },
            *ctx,
            *order,
            *tally,
        ) {
            Ok(placed) => r matches Ok(c) && final(exchange).ledger() == placed.desk.ledger && c.shows(
                placed,
            ) && placed.desk.new_log == new_log@,
            Err(e) => r == Err::<Closing, ErrorCode>(e),
        },
        final(exchange).orders == old(exchange).orders,
        r is Ok ==> final(exchange).state.order_counter == old(exchange).state.order_counter,
        order.preview ==> *final(exchange) == *old(exchange),
{
    proof {
        reveal(crate::order_rules::market_ask_closed);
    }
    let ghost before = exchange.ledger();
    let deposit: Option<Transfer> = bring_in(ctx, true, tally.filled, order.preview)?;
    let mut result = TradeResult {
        tokens_received: 0,
        tokens_sent: tally.filled,
        tokens_fee: tally.fee,
        posted_quantity: 0,
        order_id: 0,
    };
    let mut received: u64 = tally.paid;
    let mut payout: Option<Transfer> = None;
    if tally.filled > 0 {
        received = minus(tally.paid, tally.fee)?;
        result.set_tokens_received(received);
        if !order.preview {
            payout = Some(
                send_out(
                    &mut exchange.state,
                    false,
                    received,
                    Some(tally.fee),
                    ctx.market.prc_mint_type,
                )?,
            );
        }
    }
    if !order.preview {
        let was_filled: bool = if order.by_quantity {
            tally.filled == order.quantity
        } else {
            received == order.net_price
        };
        exchange.events.push(
            order_event(
                ctx,
                Side::Ask,
                116790064293172396704069821733243480358,
                exchange.state.action_counter,
                &result,
                was_filled,
                order.net_price,
                order.quantity,
                0,
            ),
        );
        assert(exchange.ledger() =~= before.with_state(exchange.state).reporting(
            exchange.events@.last(),
        ));
    }
    Ok(Closing { result, deposit, payout, purse: *purse })
}

/// The condition that an order's matching and sweeping leave.
proof fn lemma_still_numbered(before: Ledger, taker: Taker, to_fill: u64)
    requires
        before.numbered(),
        before.side(taker.side.spec_opposite()).dom().finite(),
        before.matched(taker, to_fill) is Ok,
        crate::order_rules::cleared(
            before.matched(taker, to_fill)->Ok_0.ledger,
            taker,
            before.matched(taker, to_fill)->Ok_0.expired,
        ) is Ok,
    ensures
        ({
            let walked = before.matched(taker, to_fill)->Ok_0;
            let after = crate::order_rules::cleared(walked.ledger, taker, walked.expired)->Ok_0;
            after.numbered() && after.state.order_counter == before.state.order_counter
        }),
{
    reveal(crate::order_rules::cleared);
    let walked = before.matched(taker, to_fill)->Ok_0;
    before.lemma_matched_within(taker, to_fill);
    before.lemma_within_numbered(walked.ledger);
    if !taker.preview {
        walked.ledger.lemma_swept_within(taker, walked.expired, 0);
        let after = walked.ledger.swept(taker, walked.expired, 0)->Ok_0;
        walked.ledger.lemma_within_numbered(after);
    }
}

proof fn lemma_orders_kept_numbered(before: Exchange, after: Exchange)
    requires
        before.wf(),
        after.orders == before.orders,
        after.state.order_counter == before.state.order_counter,
    ensures
        after.ledger().numbered(),
{
    assert forall|s: Side, k: u128| #[trigger] after.ledger().side(s).contains_key(
        k,
    ) implies crate::ledger::key_number(s, k) < after.state.order_counter by {
        assert(before.ledger().side(s).contains_key(k));
    }
}

/// Carries out a limit order on accounts that are given up if it is refused.
#[verifier::rlimit(40)]
fn run_limit(
    exchange: &mut Exchange,
    ctx: &OrderContext,
    side: Side,
    order: &LimitOrder,
    new_log: Option<NewAccount>,
) -> (r: Result<TradeOutcome, ErrorCode>)
    requires
        old(exchange).wf(),
        ctx.market.mkt_decimals <= 19,
        order.post && !order.preview ==> old(exchange).state.order_counter < u64::MAX,
        crate::order_rules::limit_adds_log(old(exchange).ledger(), *ctx, *order) ==> NewAccount::makes_log(
            new_log,
        ),
    ensures
        match crate::order_rules::limit(
            old(exchange).ledger(),
            *ctx,
            side,
            *order,
            brought_log(new_log),
        ) {
            Ok(placed) => r matches Ok(outcome) && final(exchange).wf() && final(exchange).ledger()
                == placed.desk.ledger && outcome.shows(*ctx, placed),
            Err(e) => r == Err::<TradeOutcome, ErrorCode>(e),
        },
        order.preview ==> *final(exchange) == *old(exchange),
{
    if order.quantity == 0 || order.price == 0 {
        return Err(ErrorCode::InvalidParameters);
    }
    check_entry(exchange, ctx, Some(order.quantity))?;
    let (purse, log) = make_ready(exchange, ctx, order.rollover && !order.preview, new_log)?;
    let ghost ready = Desk { ledger: exchange.ledger(), purse, new_log: log_view(log) };
    let expiry: i64 = check_expiry(ctx, order.expires)?;
    let taker: Taker = limit_taker(ctx, side, order);
    let brings: u64 = match side {
        Side::Bid => scale_price(order.quantity, order.price, taker.factor)?,
        Side::Ask => order.quantity,
    };
    open_limit(exchange, ctx, side, order, brings)?;
    let ghost opened = exchange.ledger();
    proof {
        exchange.orders.lemma_size(Side::Bid);
        exchange.orders.lemma_size(Side::Ask);
    }
    let matched: Matched = exchange.match_order(&taker, order.quantity)?;
    let tally: Tally = matched.tally;
    clear(exchange, &taker, matched.expired)?;
    proof {
        lemma_still_numbered(opened, taker, order.quantity);
    }
    let rest: Remainder = post_rest(exchange, &taker, order, expiry, &tally)?;
    let ghost posted = *exchange;
    let closing: Closing = match side {
        Side::Bid => close_bid(
            exchange,
            &purse,
            ctx,
            order,
            expiry,
            brings,
            &tally,
            &rest,
            Ghost(log_view(log)),
        )?,
        Side::Ask => close_ask(
            exchange,
            &purse,
            ctx,
            order,
            expiry,
            &tally,
            &rest,
            Ghost(log_view(log)),
        )?,
    };
    proof {
        lemma_orders_kept_numbered(posted, *exchange);
    }
    Ok(
        TradeOutcome {
            result: closing.result,
            store_result: ctx.result != ctx.user,
            deposit: closing.deposit,
            payout: closing.payout,
            purse: closing.purse,
            new_log: log,
        },
    )
}

/// Carries out a market order on accounts that are given up if it is refused.
#[verifier::rlimit(40)]
fn run_market(
    exchange: &mut Exchange,
    ctx: &OrderContext,
    side: Side,
    order: &MarketOrder,
    new_log: Option<NewAccount>,
) -> (r: Result<TradeOutcome, ErrorCode>)
    requires
        old(exchange).wf(),
        ctx.market.mkt_decimals <= 19,
        crate::order_rules::market_adds_log(old(exchange).ledger(), *ctx, *order) ==> NewAccount::makes_log(
            new_log,
        ),
    ensures
        match crate::order_rules::market(
            old(exchange).ledger(),
            *ctx,
            side,
            *order,
            brought_log(new_log),
        ) {
            Ok(placed) => r matches Ok(outcome) && final(exchange).wf() && final(exchange).ledger()
                == placed.desk.ledger && outcome.shows(*ctx, placed),
            Err(e) => r == Err::<TradeOutcome, ErrorCode>(e),
        },
        order.preview ==> *final(exchange) == *old(exchange),
{
    if order.by_quantity {
        if order.quantity == 0 {
            return Err(ErrorCode::InvalidParameters);
        }
    } else {
        if order.net_price == 0 {
            return Err(ErrorCode::InvalidParameters);
        }
    }
    let least: Option<u64> = if order.by_quantity {
        Some(order.quantity)
    } else {
        None
    };
    check_entry(exchange, ctx, least)?;
    let (purse, log) = make_ready(exchange, ctx, order.rollover && !order.preview, new_log)?;
    let ghost ready = *exchange;
    let taker: Taker = market_taker(ctx, side, order);
    if !order.preview {
        count_action(&mut exchange.state)?;
    }
    verify_matching_accounts(&ctx.market.trade_log, &exchange.trade_log.key)?;
    let ghost opened = exchange.ledger();
    proof {
        lemma_orders_kept_numbered(ready, *exchange);
        assert(opened =~= ready.ledger().with_state(exchange.state));
        exchange.orders.lemma_size(Side::Bid);
        exchange.orders.lemma_size(Side::Ask);
    }
    let to_fill: u64 = if order.by_quantity {
        order.quantity
    } else {
        order.net_price
    };
    let matched: Matched = exchange.match_order(&taker, to_fill)?;
    let tally: Tally = matched.tally;
    clear(exchange, &taker, matched.expired)?;
    proof {
        lemma_still_numbered(opened, taker, to_fill);
    }
    if order.fill {
        if order.by_quantity {
            if tally.filled != order.quantity {
                return Err(ErrorCode::OrderNotFilled);
            }
        } else {
            if tally.paid != order.net_price {
                return Err(ErrorCode::OrderNotFilled);
            }
        }
    }
    let ghost swept = *exchange;
    let closing: Closing = match side {
        Side::Bid => close_market_bid(exchange, &purse, ctx, order, &tally, Ghost(log_view(log)))?,
        Side::Ask => close_market_ask(exchange, &purse, ctx, order, &tally, Ghost(log_view(log)))?,
    };
    proof {
        lemma_orders_kept_numbered(swept, *exchange);
    }
    Ok(
        TradeOutcome {
            result: closing.result,
            store_result: ctx.result != ctx.user,
            deposit: closing.deposit,
            payout: closing.payout,
            purse: closing.purse,
            new_log: log,
        },
    )
}

/// A limit order of either side. One that is refused, or only tried out, changes nothing.
pub fn limit_order(
    exchange: &mut Exchange,
    ctx: &OrderContext,
    side: Side,
    order: &LimitOrder,
    new_log: Option<NewAccount>,
) -> (r: Result<TradeOutcome, ErrorCode>)
    requires
        old(exchange).wf(),
        ctx.market.mkt_decimals <= 19,
        order.post && !order.preview ==> old(exchange).state.order_counter < u64::MAX,
        crate::order_rules::limit_adds_log(old(exchange).ledger(), *ctx, *order) ==> NewAccount::makes_log(
            new_log,
        ),
    ensures
        final(exchange).wf(),
        match crate::order_rules::limit(
            old(exchange).ledger(),
            *ctx,
            side,
            *order,
            brought_log(new_log),
        ) {
            Ok(placed) => r matches Ok(outcome) && final(exchange).ledger() == placed.desk.ledger
                && outcome.shows(*ctx, placed),
            Err(e) => r == Err::<TradeOutcome, ErrorCode>(e) && *final(exchange) == *old(exchange),
        },
        order.preview ==> *final(exchange) == *old(exchange),
{
    let mut work: Exchange = exchange.copy();
    proof {
        assert(work.wf());
    }
    let outcome: TradeOutcome = run_limit(&mut work, ctx, side, order, new_log)?;
    if !order.preview {
        *exchange = work;
    } else {
        assert(work.ledger() == exchange.ledger());
    }
    Ok(outcome)
}

/// A market order of either side. One that is refused, or only tried out, changes nothing.
pub fn market_order(
    exchange: &mut Exchange,
    ctx: &OrderContext,
    side: Side,
    order: &MarketOrder,
    new_log: Option<NewAccount>,
) -> (r: Result<TradeOutcome, ErrorCode>)
    requires
        old(exchange).wf(),
        ctx.market.mkt_decimals <= 19,
        crate::order_rules::market_adds_log(old(exchange).ledger(), *ctx, *order) ==> NewAccount::makes_log(
            new_log,
        ),
    ensures
        final(exchange).wf(),
        match crate::order_rules::market(
            old(exchange).ledger(),
            *ctx,
            side,
            *order,
            brought_log(new_log),
        ) {
            Ok(placed) => r matches Ok(outcome) && final(exchange).ledger() == placed.desk.ledger
                && outcome.shows(*ctx, placed),
            Err(e) => r == Err::<TradeOutcome, ErrorCode>(e) && *final(exchange) == *old(exchange),
        },
        order.preview ==> *final(exchange) == *old(exchange),
{
    let mut work: Exchange = exchange.copy();
    proof {
        assert(work.wf());
    }
    let outcome: TradeOutcome = run_market(&mut work, ctx, side, order, new_log)?;
    if !order.preview {
        *exchange = work;
    } else {
        assert(work.ledger() == exchange.ledger());
    }
    Ok(outcome)
}

/// An order to buy at a price or below.
pub fn limit_bid(
    exchange: &mut Exchange,
    ctx: &OrderContext,
    inp_quantity: u64,
    inp_price: u64,
    inp_post: bool,
    inp_fill: bool,
    inp_expires: i64,
    inp_preview: bool,
    inp_rollover: bool,
    new_log: Option<NewAccount>,
) -> (r: Result<TradeOutcome, ErrorCode>)
    requires
        old(exchange).wf(),
        ctx.market.mkt_decimals <= 19,
        inp_post && !inp_preview ==> old(exchange).state.order_counter < u64::MAX,
        crate::order_rules::limit_adds_log(
            old(exchange).ledger(),
            *ctx,
            LimitOrder {
                quantity: inp_quantity,
                price: inp_price,
                post: inp_post,
                fill: inp_fill,
                expires: inp_expires,
                preview: inp_preview,
                rollover: inp_rollover,
            },
        ) ==> NewAccount::makes_log(new_log),
    ensures
        final(exchange).wf(),
        match crate::order_rules::limit(
            old(exchange).ledger(),
            *ctx,
            Side::Bid,
            LimitOrder {
                quantity: inp_quantity,
                price: inp_price,
                post: inp_post,
                fill: inp_fill,
                expires: inp_expires,
                preview: inp_preview,
                rollover: inp_rollover,
            },
            brought_log(new_log),
        ) {
            Ok(placed) => r matches Ok(outcome) && final(exchange).ledger() == placed.desk.ledger
                && outcome.shows(*ctx, placed),
            Err(e) => r == Err::<TradeOutcome, ErrorCode>(e) && *final(exchange) == *old(exchange),
        },
        inp_preview ==> *final(exchange) == *old(exchange),
{
    let order = LimitOrder {
        quantity: inp_quantity,
        price: inp_price,
        post: inp_post,
        fill: inp_fill,
        expires: inp_expires,
        preview: inp_preview,
        rollover: inp_rollover,
    };
    limit_order(exchange, ctx, Side::Bid, &order, new_log)
}

/// An order to sell at a price or above.
pub fn limit_ask(
    exchange: &mut Exchange,
    ctx: &OrderContext,
    inp_quantity: u64,
    inp_price: u64,
    inp_post: bool,
    inp_fill: bool,
    inp_expires: i64,
    inp_preview: bool,
    inp_rollover: bool,
    new_log: Option<NewAccount>,
) -> (r: Result<TradeOutcome, ErrorCode>)
    requires
        old(exchange).wf(),
        ctx.market.mkt_decimals <= 19,
        inp_post && !inp_preview ==> old(exchange).state.order_counter < u64::MAX,
        crate::order_rules::limit_adds_log(
            old(exchange).ledger(),
            *ctx,
            LimitOrder {
                quantity: inp_quantity,
                price: inp_price,
                post: inp_post,
                fill: inp_fill,
                expires: inp_expires,
                preview: inp_preview,
                rollover: inp_rollover,
            },
        ) ==> NewAccount::makes_log(new_log),
    ensures
        final(exchange).wf(),
        match crate::order_rules::limit(
            old(exchange).ledger(),
            *ctx,
            Side::Ask,
            LimitOrder {
                quantity: inp_quantity,
                price: inp_price,
                post: inp_post,
                fill: inp_fill,
                expires: inp_expires,
                preview: inp_preview,
                rollover: inp_rollover,
            },
            brought_log(new_log),
        ) {
            Ok(placed) => r matches Ok(outcome) && final(exchange).ledger() == placed.desk.ledger
                && outcome.shows(*ctx, placed),
            Err(e) => r == Err::<TradeOutcome, ErrorCode>(e) && *final(exchange) == *old(exchange),
        },
        inp_preview ==> *final(exchange) == *old(exchange),
{
    let order = LimitOrder {
        quantity: inp_quantity,
        price: inp_price,
        post: inp_post,
        fill: inp_fill,
        expires: inp_expires,
        preview: inp_preview,
        rollover: inp_rollover,
    };
    limit_order(exchange, ctx, Side::Ask, &order, new_log)
}

/// An order to buy at the best prices there are.
pub fn market_bid(
    exchange: &mut Exchange,
    ctx: &OrderContext,
    inp_by_quantity: bool,
    inp_quantity: u64,
    inp_net_price: u64,
    inp_fill: bool,
    inp_preview: bool,
    inp_rollover: bool,
    new_log: Option<NewAccount>,
) -> (r: Result<TradeOutcome, ErrorCode>)
    requires
        old(exchange).wf(),
        ctx.market.mkt_decimals <= 19,
        crate::order_rules::market_adds_log(
            old(exchange).ledger(),
            *ctx,
            MarketOrder {
                by_quantity: inp_by_quantity,
                quantity: inp_quantity,
                net_price: inp_net_price,
                fill: inp_fill,
                preview: inp_preview,
                rollover: inp_rollover,
            },
        ) ==> NewAccount::makes_log(new_log),
    ensures
        final(exchange).wf(),
        match crate::order_rules::market(
            old(exchange).ledger(),
            *ctx,
            Side::Bid,
            MarketOrder {
                by_quantity: inp_by_quantity,
                quantity: inp_quantity,
                net_price: inp_net_price,
                fill: inp_fill,
                preview: inp_preview,
                rollover: inp_rollover,
            },
            brought_log(new_log),
        ) {
            Ok(placed) => r matches Ok(outcome) && final(exchange).ledger() == placed.desk.ledger
                && outcome.shows(*ctx, placed),
            Err(e) => r == Err::<TradeOutcome, ErrorCode>(e) && *final(exchange) == *old(exchange),
        },
        inp_preview ==> *final(exchange) == *old(exchange),
{
    let order = MarketOrder {
        by_quantity: inp_by_quantity,
        quantity: inp_quantity,
        net_price: inp_net_price,
        fill: inp_fill,
        preview: inp_preview,
        rollover: inp_rollover,
    };
    market_order(exchange, ctx, Side::Bid, &order, new_log)
}

/// An order to sell at the best prices there are.
pub fn market_ask(
    exchange: &mut Exchange,
    ctx: &OrderContext,
    inp_by_quantity: bool,
    inp_quantity: u64,
    inp_net_price: u64,
    inp_fill: bool,
    inp_preview: bool,
    inp_rollover: bool,
    new_log: Option<NewAccount>,
) -> (r: Result<TradeOutcome, ErrorCode>)
    requires
        old(exchange).wf(),
        ctx.market.mkt_decimals <= 19,
        crate::order_rules::market_adds_log(
            old(exchange).ledger(),
            *ctx,
            MarketOrder {
                by_quantity: inp_by_quantity,
                quantity: inp_quantity,
                net_price: inp_net_price,
                fill: inp_fill,
                preview: inp_preview,
                rollover: inp_rollover,
            },
        ) ==> NewAccount::makes_log(new_log),
    ensures
        final(exchange).wf(),
        match crate::order_rules::market(
            old(exchange).ledger(),
            *ctx,
            Side::Ask,
            MarketOrder {
                by_quantity: inp_by_quantity,
                quantity: inp_quantity,
                net_price: inp_net_price,
                fill: inp_fill,
                preview: inp_preview,
                rollover: inp_rollover,
            },
            brought_log(new_log),
        ) {
            Ok(placed) => r matches Ok(outcome) && final(exchange).ledger() == placed.desk.ledger
                && outcome.shows(*ctx, placed),
            Err(e) => r == Err::<TradeOutcome, ErrorCode>(e) && *final(exchange) == *old(exchange),
        },
        inp_preview ==> *final(exchange) == *old(exchange),
{
    let order = MarketOrder {
        by_quantity: inp_by_quantity,
        quantity: inp_quantity,
        net_price: inp_net_price,
        fill: inp_fill,
        preview: inp_preview,
        rollover: inp_rollover,
    };
    market_order(exchange, ctx, Side::Ask, &order, new_log)
}

} // verus!
