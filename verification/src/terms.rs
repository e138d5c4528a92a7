//! When an order is let in, when it must be filled, and which orders it has to take.
use crate::context::{LimitOrder, MarketOrder, OrderContext};
use crate::ledger::{Ledger, Tally};
use crate::market::{ErrorCode, Side};
use crate::order_rules::{Desk, Placed, Rest};
use crate::pubkey::Pubkey;
use vstd::prelude::*;

verus! {

/// Whether the accounts that come with an order are those of the market.
pub open spec fn accounts_fit(ledger: Ledger, ctx: OrderContext) -> bool {
    &&& ctx.market.state == ctx.state_key
    &&& ctx.market.agent == ctx.agent
    &&& ctx.market.mkt_vault == ctx.mkt_vault
    &&& ctx.market.prc_vault == ctx.prc_vault
    &&& ctx.market.orders == ledger.orders_key
}

/// Whether the two settlement logs are those that the market uses.
pub open spec fn logs_fit(ledger: Ledger) -> bool {
    ledger.state.settle_a == ledger.log_a.key && ledger.state.settle_b == ledger.log_b.key
}

/// A limit order is refused with the first thing that is wrong with it: no quantity or price, a
/// closed market, too small a quantity, other accounts than those of the market, other settlement
/// logs, a new log that is not asked for, or an expiry that is not far enough ahead. One that goes
/// through has none of these faults.
#[verifier::rlimit(60)]
pub proof fn law_limit_entry(ledger: Ledger, ctx: OrderContext, side: Side, order: LimitOrder, new_log: (Pubkey, nat))
    ensures
        ({
            let result = crate::order_rules::limit(ledger, ctx, side, order, new_log);
            let adds = order.rollover && !order.preview;
            let timed = ctx.market.expire_enable && order.expires != 0;
            let soon = order.expires <= ctx.now || order.expires - ctx.now < ctx.market.expire_min;
            if order.quantity == 0 || order.price == 0 {
                result == Err::<Placed, ErrorCode>(ErrorCode::InvalidParameters)
            } else if !ctx.market.active {
                result == Err::<Placed, ErrorCode>(ErrorCode::MarketClosed)
            } else if order.quantity < ctx.market.min_quantity {
                result == Err::<Placed, ErrorCode>(ErrorCode::QuantityBelowMinimum)
            } else if !accounts_fit(ledger, ctx) {
                result == Err::<Placed, ErrorCode>(ErrorCode::InvalidAccount)
            } else if !logs_fit(ledger) {
                result == Err::<Placed, ErrorCode>(ErrorCode::RetrySettlementAccount)
            } else if adds && !ledger.state.log_rollover {
                result == Err::<Placed, ErrorCode>(ErrorCode::RetrySettlementAccount)
            } else if timed && soon {
                &&& result is Err
                &&& !adds && i64::MIN <= order.expires - ctx.now <= i64::MAX ==> result == Err::<
                    Placed,
                    ErrorCode,
                >(ErrorCode::InvalidParameters)
            } else {
                ctx.market.trade_log != ledger.trade_log_key ==> result is Err
            }
        }),
{
    reveal(crate::order_rules::entry_error);
    reveal(crate::order_rules::readied);
    reveal(crate::order_rules::expiry_of);
    reveal(crate::order_rules::limit_opened);
}

/// A market order is refused with the first thing that is wrong with it: nothing to fill, a closed
/// market, too small a quantity, other accounts than those of the market, other settlement logs, or
/// a new log that is not asked for. One that goes through has none of these faults.
#[verifier::rlimit(60)]
pub proof fn law_market_entry(ledger: Ledger, ctx: OrderContext, side: Side, order: MarketOrder, new_log: (Pubkey, nat))
    ensures
        ({
            let result = crate::order_rules::market(ledger, ctx, side, order, new_log);
            let adds = order.rollover && !order.preview;
            let nothing = if order.by_quantity {
                order.quantity == 0
            } else {
                order.net_price == 0
            };
            if nothing {
                result == Err::<Placed, ErrorCode>(ErrorCode::InvalidParameters)
            } else if !ctx.market.active {
                result == Err::<Placed, ErrorCode>(ErrorCode::MarketClosed)
            } else if order.by_quantity && order.quantity < ctx.market.min_quantity {
                result == Err::<Placed, ErrorCode>(ErrorCode::QuantityBelowMinimum)
            } else if !accounts_fit(ledger, ctx) {
                result == Err::<Placed, ErrorCode>(ErrorCode::InvalidAccount)
            } else if !logs_fit(ledger) {
                result == Err::<Placed, ErrorCode>(ErrorCode::RetrySettlementAccount)
            } else if adds && !ledger.state.log_rollover {
                result == Err::<Placed, ErrorCode>(ErrorCode::RetrySettlementAccount)
            } else {
                ctx.market.trade_log != ledger.trade_log_key ==> result is Err
            }
        }),
{
    reveal(crate::order_rules::entry_error);
    reveal(crate::order_rules::readied);
}

#[verifier::rlimit(30)]
proof fn lemma_market_fill(ctx: OrderContext, side: Side, order: MarketOrder)
    ensures
        ({
            let loose = MarketOrder { fill: false, ..order };
            &&& crate::order_rules::market_taker(ctx, side, loose) == crate::order_rules::market_taker(
                ctx,
                side,
                order,
            )
            &&& forall|desk: Desk, tally: Tally| #[trigger]
                crate::order_rules::market_bid_closed(desk, ctx, loose, tally)
                    == crate::order_rules::market_bid_closed(desk, ctx, order, tally)
            &&& forall|desk: Desk, tally: Tally| #[trigger]
                crate::order_rules::market_ask_closed(desk, ctx, loose, tally)
                    == crate::order_rules::market_ask_closed(desk, ctx, order, tally)
        }),
{
    let loose = MarketOrder { fill: false, ..order };
    assert(crate::order_rules::market_taker(ctx, side, loose) == crate::order_rules::market_taker(
        ctx,
        side,
        order,
    )) by {
        reveal(crate::order_rules::market_taker);
    }
    assert forall|desk: Desk, tally: Tally| #[trigger]
        crate::order_rules::market_bid_closed(desk, ctx, loose, tally)
            == crate::order_rules::market_bid_closed(desk, ctx, order, tally) by {
        reveal(crate::order_rules::market_bid_closed);
    }
    assert forall|desk: Desk, tally: Tally| #[trigger]
        crate::order_rules::market_ask_closed(desk, ctx, loose, tally)
            == crate::order_rules::market_ask_closed(desk, ctx, order, tally) by {
        reveal(crate::order_rules::market_ask_closed);
    }
}

/// A market order that must be filled comes to what it would come to without that condition, if it
/// then gets or gives exactly its quantity, or spends or earns exactly its net price; where the book
/// has less, it is refused.
#[verifier::rlimit(60)]
pub proof fn law_market_fill_or_kill(ledger: Ledger, ctx: OrderContext, side: Side, order: MarketOrder, new_log: (Pubkey, nat))
    requires
        order.fill,
    ensures
        match crate::order_rules::market(
            ledger,
            ctx,
            side,
            MarketOrder { fill: false, ..order },
            new_log,
        ) {
            Err(_) => crate::order_rules::market(ledger, ctx, side, order, new_log) is Err,
            Ok(p) => {
                let r = p.result;
                let exact = match (side, order.by_quantity) {
                    (Side::Bid, true) => r.tokens_received == order.quantity,
                    (Side::Ask, true) => r.tokens_sent == order.quantity,
                    (Side::Bid, false) => r.tokens_sent - r.tokens_fee == order.net_price,
                    (Side::Ask, false) => r.tokens_received + r.tokens_fee == order.net_price,
                };
                // An ask that has sold nothing has earned nothing, whatever its trades cost.
                side == Side::Ask && !order.by_quantity && r.tokens_sent == 0 || crate::order_rules::market(
                    ledger,
                    ctx,
                    side,
                    order,
                    new_log,
                ) == if exact {
                    Ok::<Placed, ErrorCode>(p)
                } else {
                    Err(ErrorCode::OrderNotFilled)
                }
            },
        },
{
    lemma_market_fill(ctx, side, order);
    let loose = MarketOrder { fill: false, ..order };
    if crate::order_rules::market(ledger, ctx, side, loose, new_log) is Ok {
        reveal(crate::order_rules::market_bid_closed);
        reveal(crate::order_rules::market_ask_closed);
    }
}

#[verifier::rlimit(30)]
proof fn lemma_limit_fill(ctx: OrderContext, side: Side, order: LimitOrder)
    ensures
        ({
            let loose = LimitOrder { fill: false, ..order };
            &&& crate::order_rules::limit_taker(ctx, side, loose) == crate::order_rules::limit_taker(
                ctx,
                side,
                order,
            )
            &&& forall|l: Ledger, b: u64| #[trigger]
                crate::order_rules::limit_opened(l, ctx, side, loose, b)
                    == crate::order_rules::limit_opened(l, ctx, side, order, b)
            &&& forall|d: Desk, e: i64, b: u64, y: Tally, r: Rest| #[trigger]
                crate::order_rules::bid_closed(d, ctx, loose, e, b, y, r)
                    == crate::order_rules::bid_closed(d, ctx, order, e, b, y, r)
            &&& forall|d: Desk, e: i64, y: Tally, r: Rest| #[trigger]
                crate::order_rules::ask_closed(d, ctx, loose, e, y, r) == crate::order_rules::ask_closed(
                    d,
                    ctx,
                    order,
                    e,
                    y,
                    r,
                )
        }),
{
    let loose = LimitOrder { fill: false, ..order };
    assert(crate::order_rules::limit_taker(ctx, side, loose) == crate::order_rules::limit_taker(
        ctx,
        side,
        order,
    )) by {
        reveal(crate::order_rules::limit_taker);
    }
    assert forall|l: Ledger, b: u64| #[trigger]
        crate::order_rules::limit_opened(l, ctx, side, loose, b) == crate::order_rules::limit_opened(
            l,
            ctx,
            side,
            order,
            b,
        ) by {
        reveal(crate::order_rules::limit_opened);
    }
    assert forall|d: Desk, e: i64, b: u64, y: Tally, r: Rest| #[trigger]
        crate::order_rules::bid_closed(d, ctx, loose, e, b, y, r) == crate::order_rules::bid_closed(
            d,
            ctx,
            order,
            e,
            b,
            y,
            r,
        ) by {
        reveal(crate::order_rules::bid_closed);
    }
    assert forall|d: Desk, e: i64, y: Tally, r: Rest| #[trigger]
        crate::order_rules::ask_closed(d, ctx, loose, e, y, r) == crate::order_rules::ask_closed(
            d,
            ctx,
            order,
            e,
            y,
            r,
        ) by {
        reveal(crate::order_rules::ask_closed);
    }
}

/// A limit order that must be filled and is not posted comes to what it would come to without that
/// condition, if it then gets or gives exactly its quantity; where the book has less, it is refused.
#[verifier::rlimit(60)]
pub proof fn law_limit_fill_or_kill(ledger: Ledger, ctx: OrderContext, side: Side, order: LimitOrder, new_log: (Pubkey, nat))
    requires
        order.fill,
        !order.post,
    ensures
        match crate::order_rules::limit(
            ledger,
            ctx,
            side,
            LimitOrder { fill: false, ..order },
            new_log,
        ) {
            Err(_) => crate::order_rules::limit(ledger, ctx, side, order, new_log) is Err,
            Ok(p) => crate::order_rules::limit(ledger, ctx, side, order, new_log) == if match side {
                Side::Bid => p.result.tokens_received,
                Side::Ask => p.result.tokens_sent,
            } == order.quantity {
                Ok::<Placed, ErrorCode>(p)
            } else {
                Err(ErrorCode::OrderNotFilled)
            },
        },
{
    lemma_limit_fill(ctx, side, order);
    reveal(crate::order_rules::limit_rest);
    let loose = LimitOrder { fill: false, ..order };
    if crate::order_rules::limit(ledger, ctx, side, loose, new_log) is Ok {
        match side {
            Side::Bid => {
                reveal(crate::order_rules::bid_closed);
            },
            Side::Ask => {
                reveal(crate::order_rules::ask_closed);
            },
        }
    }
}

} // verus!
