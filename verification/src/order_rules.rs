//! What becomes of an order, from the checks at its entry to the transfers at its end.
use crate::context::{LimitOrder, MarketOrder, OrderContext, Purse, Transfer};
use crate::ledger::{Ledger, Taker, Tally};
use crate::market::{ErrorCode, Event, Market, MarketState, MintType, OrderEvent, Side, TradeResult};
use crate::pubkey::Pubkey;
use crate::records::Order;
use crate::settlement::LogView;
use vstd::prelude::*;

verus! {

/// A ledger with the lamports and the new settlement log that go with it.
#[verifier::ext_equal]
pub struct Desk {
    pub ledger: Ledger,
    pub purse: Purse,
    pub new_log: Option<LogView>,
}

/// An order that went through.
#[verifier::ext_equal]
pub struct Placed {
    pub desk: Desk,
    pub result: TradeResult,
    pub deposit: Option<Transfer>,
    pub payout: Option<Transfer>,
}

/// What is left of a limit order after matching, and what became of it.
#[verifier::ext_equal]
pub struct Rest {
    pub ledger: Ledger,
    /// Pricing tokens for what was filled and what was posted, before the fee.
    pub paid: u64,
    pub posted_quantity: u64,
    pub order_id: u128,
}

/// When a posted order expires, from what was asked for.
#[verifier::opaque]
pub open spec fn expiry_of(market: Market, expires: i64, now: i64) -> Result<i64, ErrorCode> {
    if !market.expire_enable || expires == 0 {
        Ok(0)
    } else if !(i64::MIN <= expires - now <= i64::MAX) {
        Err(ErrorCode::Overflow)
    } else if expires - now <= 0 || expires - now < market.expire_min {
        Err(ErrorCode::InvalidParameters)
    } else {
        Ok(expires)
    }
}

/// What is wrong with the accounts of an order, or with a quantity below the minimum.
#[verifier::opaque]
pub open spec fn entry_error(ledger: Ledger, ctx: OrderContext, quantity: Option<u64>) -> Option<ErrorCode> {
    if !ctx.market.active {
        Some(ErrorCode::MarketClosed)
    } else if quantity matches Some(q) && q < ctx.market.min_quantity {
        Some(ErrorCode::QuantityBelowMinimum)
    } else if ctx.market.state != ctx.state_key || ctx.market.agent != ctx.agent || ctx.market.mkt_vault
        != ctx.mkt_vault || ctx.market.prc_vault != ctx.prc_vault || ctx.market.orders
        != ledger.orders_key {
        Some(ErrorCode::InvalidAccount)
    } else if ledger.state.settle_a != ledger.log_a.key || ledger.state.settle_b != ledger.log_b.key {
        Some(ErrorCode::RetrySettlementAccount)
    } else {
        None
    }
}

/// Whether a limit order comes to the point where a new settlement log is added.
pub open spec fn limit_adds_log(ledger: Ledger, ctx: OrderContext, order: LimitOrder) -> bool {
    &&& order.rollover && !order.preview
    &&& order.quantity > 0 && order.price > 0
    &&& entry_error(ledger, ctx, Some(order.quantity)) is None
    &&& ledger.state.log_rollover
}

/// Whether a market order comes to the point where a new settlement log is added.
pub open spec fn market_adds_log(ledger: Ledger, ctx: OrderContext, order: MarketOrder) -> bool {
    &&& order.rollover && !order.preview
    &&& if order.by_quantity {
        order.quantity > 0
    } else {
        order.net_price > 0
    }
    &&& entry_error(
        ledger,
        ctx,
        if order.by_quantity {
            Some(order.quantity)
        } else {
            None
        },
    ) is None
    &&& ledger.state.log_rollover
}

impl Desk {
    /// A new settlement log is put behind the second one, and the user who brought it is paid back.
    pub open spec fn rolled_over(self, ctx: OrderContext, new_log: (Pubkey, nat)) -> Result<Desk, ErrorCode> {
        let l = self.ledger;
        if !l.state.log_rollover {
            Err(ErrorCode::RetrySettlementAccount)
        } else {
            let (state, log_b, new_log) = crate::log_chain::rolled(
                l.state,
                l.log_b,
                ctx.market_key,
                new_log,
            );
            match crate::log_chain::reimbursed(state, self.purse, ctx.market.log_reimburse) {
                Err(e) => Err(e),
                Ok((state, purse)) => Ok(
                    Desk { ledger: Ledger { state, log_b, ..l }, purse, new_log: Some(new_log) },
                ),
            }
        }
    }

    /// The order's fee for space in the settlement log goes to the state account.
    pub open spec fn fee_deposited(self, log_fee: u64) -> Result<Desk, ErrorCode> {
        match (
            self.purse.paid_in(log_fee),
            crate::math::as_amount(self.ledger.state.log_deposit_balance + log_fee),
        ) {
            (Ok(purse), Ok(log_deposit_balance)) => Ok(
                Desk {
                    ledger: self.ledger.with_state(
                        MarketState { log_deposit_balance, ..self.ledger.state },
                    ),
                    purse,
                    ..self
                },
            ),
            _ => Err(ErrorCode::Overflow),
        }
    }

    pub open spec fn with_ledger(self, ledger: Ledger) -> Desk {
        Desk { ledger, ..self }
    }

    pub open spec fn with_state(self, state: MarketState) -> Desk {
        Desk { ledger: self.ledger.with_state(state), ..self }
    }
}

/// The order of a context, as it is matched.
#[verifier::opaque]
pub open spec fn limit_taker(ctx: OrderContext, side: Side, order: LimitOrder) -> Taker {
    Taker {
        market: ctx.market_key,
        user: ctx.user,
        side,
        now: ctx.now,
        factor: crate::math::units(ctx.market.mkt_decimals),
        taker_fee: ctx.market.taker_fee,
        preview: order.preview,
        limit: Some(order.price),
        by_quantity: true,
        pays_by_fill: false,
        exact_event: match side {
            Side::Bid => 207368829214137069500050352632921761096,
            Side::Ask => 325819153524900178081877579778492284961,
        },
        entire_event: match side {
            Side::Bid => 227168296477409633500015956081940497570,
            Side::Ask => 114544905925567569513505448268003180936,
        },
        partial_event: match side {
            Side::Bid => 94062763214239030578622318919331863353,
            Side::Ask => 282510189476950091999666304965232626740,
        },
    }
}

#[verifier::opaque]
pub open spec fn market_taker(ctx: OrderContext, side: Side, order: MarketOrder) -> Taker {
    Taker {
        market: ctx.market_key,
        user: ctx.user,
        side,
        now: ctx.now,
        factor: crate::math::units(ctx.market.mkt_decimals),
        taker_fee: ctx.market.taker_fee,
        preview: order.preview,
        limit: None,
        by_quantity: order.by_quantity,
        pays_by_fill: true,
        exact_event: match (side, order.by_quantity) {
            (Side::Bid, true) => 97879353062914658353780090028087623355,
            (Side::Bid, false) => 331852354717548342008417076114136032746,
            (Side::Ask, true) => 176535012143782409593813433848999612355,
            (Side::Ask, false) => 38185514874311817824997288786026180382,
        },
        entire_event: match (side, order.by_quantity) {
            (Side::Bid, true) => 98887148454935384202006639804150096432,
            (Side::Bid, false) => 30314321964017162377189412309266042294,
            (Side::Ask, true) => 277111811349020061708541382826182055538,
            (Side::Ask, false) => 48115079441646063920817461881527222742,
        },
        partial_event: match (side, order.by_quantity) {
            (Side::Bid, true) => 241528249049192735796332143519520355761,
            (Side::Bid, false) => 237563056127520713232024370460619306548,
            (Side::Ask, true) => 338129135642557935308794285239529753670,
            (Side::Ask, false) => 338446361041777477888718125403430758950,
        },
    }
}

/// The state with one more action.
pub open spec fn next_action(state: MarketState) -> Result<MarketState, ErrorCode> {
    match crate::math::as_amount(state.action_counter + 1) {
        Ok(action_counter) => Ok(MarketState { action_counter, ..state }),
        Err(e) => Err(e),
    }
}

/// What a limit order brings with it: the quantity for an ask, its price for a bid.
pub open spec fn brought(side: Side, order: LimitOrder, factor: u64) -> Result<u64, ErrorCode> {
    match side {
        Side::Bid => crate::math::cost(order.quantity, order.price, factor),
        Side::Ask => Ok(order.quantity),
    }
}

/// A limit order, up to the matching: what it brings is entered, unless it is only tried out.
#[verifier::opaque]
pub open spec fn limit_opened(ledger: Ledger, ctx: OrderContext, side: Side, order: LimitOrder, brings: u64) -> Result<
    Ledger,
    ErrorCode,
> {
    let entered = if order.preview {
        Ok(ledger.state)
    } else {
        match next_action(ledger.state) {
            Err(e) => Err(e),
            Ok(state) => crate::ledger::deposited(state, side == Side::Ask, brings),
        }
    };
    match entered {
        Err(e) => Err(e),
        Ok(state) => if ctx.market.trade_log != ledger.trade_log_key {
            Err(ErrorCode::InvalidAccount)
        } else {
            Ok(ledger.with_state(state))
        },
    }
}

/// The sweep of expired orders, unless the order is only tried out.
#[verifier::opaque]
pub open spec fn cleared(ledger: Ledger, taker: Taker, expired: Seq<u128>) -> Result<Ledger, ErrorCode> {
    if taker.preview {
        Ok(ledger)
    } else {
        ledger.swept(taker, expired, 0)
    }
}

/// A limit order after the matching: what is not filled is posted, if the order says so.
#[verifier::opaque]
pub open spec fn limit_rest(
    ledger: Ledger,
    taker: Taker,
    order: LimitOrder,
    expiry: i64,
    tally: Tally,
) -> Result<Rest, ErrorCode> {
    let remaining = order.quantity - tally.filled;
    if remaining < 0 {
        Err(ErrorCode::Overflow)
    } else if remaining > 0 && order.fill && !order.post {
        Err(ErrorCode::OrderNotFilled)
    } else if remaining > 0 && order.post {
        let posted = if order.preview {
            Ok(ledger)
        } else {
            ledger.posted(taker, order.price, Order { amount: remaining as u64, expiry })
        };
        let part = match taker.side {
            Side::Bid => crate::math::cost(remaining as u64, order.price, taker.factor),
            Side::Ask => Ok(0u64),
        };
        match (posted, part) {
            (Err(e), _) => Err(e),
            (_, Err(e)) => Err(e),
            (Ok(after), Ok(tokens)) => match crate::math::as_amount(tally.paid + tokens) {
                Err(e) => Err(e),
                Ok(paid) => Ok(
                    Rest {
                        ledger: after,
                        paid,
                        posted_quantity: remaining as u64,
                        order_id: if order.preview {
                            u128::MAX
                        } else {
                            crate::order_book::order_key(
                                taker.side,
                                order.price,
                                ledger.state.order_counter,
                            )
                        },
                    },
                ),
            },
        }
    } else {
        Ok(Rest { ledger, paid: tally.paid, posted_quantity: 0, order_id: 0 })
    }
}

/// The tokens that a taker gets go out of the vault; a fee on them stays in it.
pub open spec fn paid_out(state: MarketState, mkt_token: bool, amount: u64, fee: Option<u64>, mint: u8) -> Result<
    (MarketState, Transfer),
    ErrorCode,
> {
    match crate::ledger::released(state, mkt_token, amount) {
        Err(e) => Err(e),
        Ok(released) => match (match fee {
            None => Ok(released),
            Some(f) => crate::ledger::kept_back(released, f),
        }) {
            Err(e) => Err(e),
            Ok(after) => match MintType::spec_of(mint) {
                Err(e) => Err(e),
                Ok(mint_type) => Ok((after, Transfer { mint_type, amount })),
            },
        },
    }
}

/// The transfer that brings a taker's tokens.
pub open spec fn paid_in(ctx: OrderContext, mkt_token: bool, amount: u64, preview: bool) -> Result<
    Option<Transfer>,
    ErrorCode,
> {
    match MintType::spec_of(
        if mkt_token {
            ctx.market.mkt_mint_type
        } else {
            ctx.market.prc_mint_type
        },
    ) {
        Err(e) => Err(e),
        Ok(mint_type) => Transfer::planned(
            mint_type,
            amount,
            preview,
            if mkt_token {
                ctx.user_mkt_token
            } else {
                ctx.user_prc_token
            },
        ),
    }
}

/// The event of an order.
pub open spec fn order_event(
    ctx: OrderContext,
    side: Side,
    event_type: u128,
    action_id: u64,
    result: TradeResult,
    filled: bool,
    order_price: u64,
    order_quantity: u64,
    expires: i64,
) -> Event {
    Event::Order(
        OrderEvent {
            event_type,
            action_id,
            market: ctx.market_key,
            user: ctx.user,
            market_token: ctx.user_mkt_token.key,
            pricing_token: ctx.user_prc_token.key,
            order_side: side.spec_code(),
            order_id: result.order_id,
            filled,
            tokens_sent: result.tokens_sent,
            tokens_received: result.tokens_received,
            tokens_fee: result.tokens_fee,
            posted: result.posted_quantity > 0,
            posted_quantity: result.posted_quantity,
            order_price,
            order_quantity,
            expires,
        },
    )
}

pub open spec fn limit_order_event(side: Side) -> u128 {
    match side {
        Side::Bid => 58862986463747312203336335289809479007,
        Side::Ask => 295320270387787716737004386297471454892,
    }
}

pub open spec fn market_order_event(side: Side) -> u128 {
    match side {
        Side::Bid => 151919600483167167737000078670308605753,
        Side::Ask => 116790064293172396704069821733243480358,
    }
}

/// A bid after the matching: what it brought and does not need is given back, the commission and
/// the fee for log space are taken, and the tokens change hands.
#[verifier::opaque]
pub open spec fn bid_closed(
    desk: Desk,
    ctx: OrderContext,
    order: LimitOrder,
    expiry: i64,
    brings: u64,
    tally: Tally,
    rest: Rest,
) -> Result<Placed, ErrorCode> {
    let discount = crate::math::as_amount(brings - rest.paid);
    let total = crate::math::as_amount(rest.paid + tally.fee);
    match (discount, total) {
        (Ok(discount), Ok(total)) => {
            let charged = if order.preview {
                Ok(desk)
            } else {
                match crate::ledger::released(desk.ledger.state, false, discount) {
                    Err(e) => Err(e),
                    Ok(kept) => match crate::ledger::commissioned(kept, tally.fee) {
                        Err(e) => Err(e),
                        Ok(state) => desk.with_state(state).fee_deposited(ctx.market.log_fee),
                    },
                }
            };
            match charged {
                Err(e) => Err(e),
                Ok(desk) => match paid_in(ctx, false, total, order.preview) {
                    Err(e) => Err(e),
                    Ok(deposit) => {
                        let result = TradeResult {
                            tokens_received: tally.filled,
                            tokens_sent: total,
                            tokens_fee: tally.fee,
                            posted_quantity: rest.posted_quantity,
                            order_id: rest.order_id,
                        };
                        if order.preview {
                            Ok(Placed { desk, result, deposit, payout: None })
                        } else {
                            let event = order_event(
                                ctx,
                                Side::Bid,
                                limit_order_event(Side::Bid),
                                desk.ledger.state.action_counter,
                                result,
                                order.quantity == tally.filled,
                                order.price,
                                order.quantity,
                                expiry,
                            );
                            if tally.filled == 0 {
                                Ok(
                                    Placed {
                                        desk: desk.with_ledger(desk.ledger.reporting(event)),
                                        result,
                                        deposit,
                                        payout: None,
                                    },
                                )
                            } else {
                                match paid_out(
                                    desk.ledger.state,
                                    true,
                                    tally.filled,
                                    None,
                                    ctx.market.mkt_mint_type,
                                ) {
                                    Err(e) => Err(e),
                                    Ok((state, payout)) => Ok(
                                        Placed {
                                            desk: desk.with_ledger(
                                                desk.ledger.with_state(state).reporting(event),
                                            ),
                                            result,
                                            deposit,
                                            payout: Some(payout),
                                        },
                                    ),
                                }
                            }
                        }
                    },
                },
            }
        },
        _ => Err(ErrorCode::Overflow),
    }
}

/// An ask after the matching: what it brought and neither sold nor posted is given back, the fee
/// for log space is taken, and the tokens change hands, less the commission.
#[verifier::opaque]
pub open spec fn ask_closed(
    desk: Desk,
    ctx: OrderContext,
    order: LimitOrder,
    expiry: i64,
    tally: Tally,
    rest: Rest,
) -> Result<Placed, ErrorCode> {
    let sent = crate::math::as_amount(tally.filled + rest.posted_quantity);
    let unsold = crate::math::as_amount(order.quantity - tally.filled - rest.posted_quantity);
    match (sent, unsold) {
        (Ok(sent), Ok(unsold)) => {
            let charged = if order.preview {
                Ok(desk)
            } else {
                match crate::ledger::released(desk.ledger.state, true, unsold) {
                    Err(e) => Err(e),
                    Ok(state) => desk.with_state(state).fee_deposited(ctx.market.log_fee),
                }
            };
            match charged {
                Err(e) => Err(e),
                Ok(desk) => match paid_in(ctx, true, sent, order.preview) {
                    Err(e) => Err(e),
                    Ok(deposit) => {
                        let received = if tally.filled == 0 {
                            Ok(0u64)
                        } else {
                            crate::math::as_amount(tally.paid - tally.fee)
                        };
                        match received {
                            Err(e) => Err(e),
                            Ok(received) => {
                                let result = TradeResult {
                                    tokens_received: received,
                                    tokens_sent: sent,
                                    tokens_fee: tally.fee,
                                    posted_quantity: rest.posted_quantity,
                                    order_id: rest.order_id,
                                };
                                if order.preview {
                                    Ok(Placed { desk, result, deposit, payout: None })
                                } else {
                                    let event = order_event(
                                        ctx,
                                        Side::Ask,
                                        limit_order_event(Side::Ask),
                                        desk.ledger.state.action_counter,
                                        result,
                                        order.quantity == tally.filled,
                                        order.price,
                                        order.quantity,
                                        expiry,
                                    );
                                    if tally.filled == 0 {
                                        Ok(
                                            Placed {
                                                desk: desk.with_ledger(desk.ledger.reporting(event)),
                                                result,
                                                deposit,
                                                payout: None,
                                            },
                                        )
                                    } else {
                                        match paid_out(
                                            desk.ledger.state,
                                            false,
                                            received,
                                            Some(tally.fee),
                                            ctx.market.prc_mint_type,
                                        ) {
                                            Err(e) => Err(e),
                                            Ok((state, payout)) => Ok(
                                                Placed {
                                                    desk: desk.with_ledger(
                                                        desk.ledger.with_state(state).reporting(event),
                                                    ),
                                                    result,
                                                    deposit,
                                                    payout: Some(payout),
                                                },
                                            ),
                                        }
                                    }
                                }
                            },
                        }
                    },
                },
            }
        },
        _ => Err(ErrorCode::Overflow),
    }
}

/// A limit order once it is let in.
pub open spec fn limit_let_in(desk: Desk, ctx: OrderContext, side: Side, order: LimitOrder, expiry: i64) -> Result<
    Placed,
    ErrorCode,
> {
    let taker = limit_taker(ctx, side, order);
    match brought(side, order, taker.factor) {
        Err(e) => Err(e),
        Ok(brings) => match limit_opened(desk.ledger, ctx, side, order, brings) {
            Err(e) => Err(e),
            Ok(opened) => match opened.matched(taker, order.quantity) {
                Err(e) => Err(e),
                Ok(walked) => match cleared(walked.ledger, taker, walked.expired) {
                    Err(e) => Err(e),
                    Ok(swept) => match limit_rest(swept, taker, order, expiry, walked.tally) {
                        Err(e) => Err(e),
                        Ok(rest) => {
                            let desk = desk.with_ledger(rest.ledger);
                            match side {
                                Side::Bid => bid_closed(
                                    desk,
                                    ctx,
                                    order,
                                    expiry,
                                    brings,
                                    walked.tally,
                                    rest,
                                ),
                                Side::Ask => ask_closed(desk, ctx, order, expiry, walked.tally, rest),
                            }
                        },
                    },
                },
            },
        },
    }
}

/// The desk of an order, with a new settlement log if the order brings one.
#[verifier::opaque]
pub open spec fn readied(desk: Desk, ctx: OrderContext, rollover: bool, new_log: (Pubkey, nat)) -> Result<
    Desk,
    ErrorCode,
> {
    if rollover {
        desk.rolled_over(ctx, new_log)
    } else {
        Ok(desk)
    }
}

/// A limit order.
pub open spec fn limit(ledger: Ledger, ctx: OrderContext, side: Side, order: LimitOrder, new_log: (Pubkey, nat)) -> Result<
    Placed,
    ErrorCode,
> {
    if order.quantity == 0 || order.price == 0 {
        Err(ErrorCode::InvalidParameters)
    } else {
        match entry_error(ledger, ctx, Some(order.quantity)) {
            Some(e) => Err(e),
            None => match readied(
                Desk { ledger, purse: ctx.purse, new_log: None },
                ctx,
                order.rollover && !order.preview,
                new_log,
            ) {
                Err(e) => Err(e),
                Ok(desk) => match expiry_of(ctx.market, order.expires, ctx.now) {
                    Err(e) => Err(e),
                    Ok(expiry) => limit_let_in(desk, ctx, side, order, expiry),
                },
            },
        }
    }
}

/// A market bid after the matching.
#[verifier::opaque]
pub open spec fn market_bid_closed(desk: Desk, ctx: OrderContext, order: MarketOrder, tally: Tally) -> Result<
    Placed,
    ErrorCode,
> {
    match crate::math::as_amount(tally.paid + tally.fee) {
        Err(e) => Err(e),
        Ok(total) => {
            let charged = if order.preview {
                Ok(desk.ledger.state)
            } else {
                crate::ledger::commissioned(desk.ledger.state, tally.fee)
            };
            match charged {
                Err(e) => Err(e),
                Ok(state) => match paid_in(ctx, false, total, order.preview) {
                    Err(e) => Err(e),
                    Ok(deposit) => {
                        let desk = desk.with_state(state);
                        let result = TradeResult {
                            tokens_received: tally.filled,
                            tokens_sent: total,
                            tokens_fee: tally.fee,
                            posted_quantity: 0,
                            order_id: 0,
                        };
                        if order.preview {
                            Ok(Placed { desk, result, deposit, payout: None })
                        } else {
                            let event = order_event(
                                ctx,
                                Side::Bid,
                                market_order_event(Side::Bid),
                                state.action_counter,
                                result,
                                if order.by_quantity {
                                    tally.filled == order.quantity
                                } else {
                                    total == order.net_price
                                },
                                order.net_price,
                                order.quantity,
                                0,
                            );
                            if tally.filled == 0 {
                                Ok(
                                    Placed {
                                        desk: desk.with_ledger(desk.ledger.reporting(event)),
                                        result,
                                        deposit,
                                        payout: None,
                                    },
                                )
                            } else {
                                match paid_out(
                                    state,
                                    true,
                                    tally.filled,
                                    None,
                                    ctx.market.mkt_mint_type,
                                ) {
                                    Err(e) => Err(e),
                                    Ok((state, payout)) => Ok(
                                        Placed {
                                            desk: desk.with_ledger(
                                                desk.ledger.with_state(state).reporting(event),
                                            ),
                                            result,
                                            deposit,
                                            payout: Some(payout),
                                        },
                                    ),
                                }
                            }
                        }
                    },
                },
            }
        },
    }
}

/// A market ask after the matching.
#[verifier::opaque]
pub open spec fn market_ask_closed(desk: Desk, ctx: OrderContext, order: MarketOrder, tally: Tally) -> Result<
    Placed,
    ErrorCode,
> {
    match paid_in(ctx, true, tally.filled, order.preview) {
        Err(e) => Err(e),
        Ok(deposit) => {
            let received = if tally.filled == 0 {
                Ok(0u64)
            } else {
                crate::math::as_amount(tally.paid - tally.fee)
            };
            match received {
                Err(e) => Err(e),
                Ok(received) => {
                    let result = TradeResult {
                        tokens_received: received,
                        tokens_sent: tally.filled,
                        tokens_fee: tally.fee,
                        posted_quantity: 0,
                        order_id: 0,
                    };
                    if order.preview {
                        Ok(Placed { desk, result, deposit, payout: None })
                    } else {
                        let event = order_event(
                            ctx,
                            Side::Ask,
                            market_order_event(Side::Ask),
                            desk.ledger.state.action_counter,
                            result,
                            if order.by_quantity {
                                tally.filled == order.quantity
                            } else if tally.filled == 0 {
                                tally.paid == order.net_price
                            } else {
                                received == order.net_price
                            },
                            order.net_price,
                            order.quantity,
                            0,
                        );
                        if tally.filled == 0 {
                            Ok(
                                Placed {
                                    desk: desk.with_ledger(desk.ledger.reporting(event)),
                                    result,
                                    deposit,
                                    payout: None,
                                },
                            )
                        } else {
                            match paid_out(
                                desk.ledger.state,
                                false,
                                received,
                                Some(tally.fee),
                                ctx.market.prc_mint_type,
                            ) {
                                Err(e) => Err(e),
                                Ok((state, payout)) => Ok(
                                    Placed {
                                        desk: desk.with_ledger(
                                            desk.ledger.with_state(state).reporting(event),
                                        ),
                                        result,
                                        deposit,
                                        payout: Some(payout),
                                    },
                                ),
                            }
                        }
                    }
                },
            }
        },
    }
}

/// Whether a market order that must be filled completely is not.
pub open spec fn falls_short(order: MarketOrder, tally: Tally) -> bool {
    order.fill && if order.by_quantity {
        tally.filled != order.quantity
    } else {
        tally.paid != order.net_price
    }
}

/// A market order once it is let in.
pub open spec fn market_let_in(desk: Desk, ctx: OrderContext, side: Side, order: MarketOrder) -> Result<
    Placed,
    ErrorCode,
> {
    let taker = market_taker(ctx, side, order);
    let counted = if order.preview {
        Ok(desk.ledger.state)
    } else {
        next_action(desk.ledger.state)
    };
    match counted {
        Err(e) => Err(e),
        Ok(state) => if ctx.market.trade_log != desk.ledger.trade_log_key {
            Err(ErrorCode::InvalidAccount)
        } else {
            match desk.ledger.with_state(state).matched(
                taker,
                if order.by_quantity {
                    order.quantity
                } else {
                    order.net_price
                },
            ) {
                Err(e) => Err(e),
                Ok(walked) => match cleared(walked.ledger, taker, walked.expired) {
                    Err(e) => Err(e),
                    Ok(swept) => if falls_short(order, walked.tally) {
                        Err(ErrorCode::OrderNotFilled)
                    } else {
                        match side {
                            Side::Bid => market_bid_closed(
                                desk.with_ledger(swept),
                                ctx,
                                order,
                                walked.tally,
                            ),
                            Side::Ask => market_ask_closed(
                                desk.with_ledger(swept),
                                ctx,
                                order,
                                walked.tally,
                            ),
                        }
                    },
                },
            }
        },
    }
}

/// A market order.
pub open spec fn market(ledger: Ledger, ctx: OrderContext, side: Side, order: MarketOrder, new_log: (Pubkey, nat)) -> Result<
    Placed,
    ErrorCode,
> {
    if order.by_quantity && order.quantity == 0 || !order.by_quantity && order.net_price == 0 {
        Err(ErrorCode::InvalidParameters)
    } else {
        match entry_error(
            ledger,
            ctx,
            if order.by_quantity {
                Some(order.quantity)
            } else {
                None
            },
        ) {
            Some(e) => Err(e),
            None => match readied(
                Desk { ledger, purse: ctx.purse, new_log: None },
                ctx,
                order.rollover && !order.preview,
                new_log,
            ) {
                Err(e) => Err(e),
                Ok(desk) => market_let_in(desk, ctx, side, order),
            },
        }
    }
}

} // verus!
