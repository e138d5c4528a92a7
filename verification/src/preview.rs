//! A preview says what an order would come to, and changes nothing.
use crate::context::{LimitOrder, MarketOrder, OrderContext};
use crate::ledger::{Ledger, Taker, Tally, Walked};
use crate::market::{ErrorCode, MintType, Side, TradeResult};
use crate::order_rules::Desk;
use crate::pubkey::Pubkey;
use vstd::prelude::*;

verus! {

impl OrderContext {
    /// Whether the user has so many tokens to pay with. Only accounts of the token program can be
    /// looked into.
    pub open spec fn can_pay(self, side: Side, amount: u64) -> bool {
        let (mint_type, from) = match side {
            Side::Bid => (self.market.prc_mint_type, self.user_prc_token),
            Side::Ask => (self.market.mkt_mint_type, self.user_mkt_token),
        };
        MintType::spec_of(mint_type) == Ok::<MintType, ErrorCode>(MintType::SPLToken) && !from.frozen
            && amount <= from.amount
    }
}

/// What a preview says where the user cannot pay: that the account is frozen, that it has too few
/// tokens, or that it cannot be looked into.
pub open spec fn fault_of(ctx: OrderContext, side: Side, amount: u64) -> Option<ErrorCode> {
    let (mint_type, from) = match side {
        Side::Bid => (ctx.market.prc_mint_type, ctx.user_prc_token),
        Side::Ask => (ctx.market.mkt_mint_type, ctx.user_mkt_token),
    };
    if mint_type != 0 {
        Some(ErrorCode::InvalidParameters)
    } else if from.frozen {
        Some(ErrorCode::ExternalError)
    } else if from.amount < amount {
        Some(ErrorCode::InsufficientTokens)
    } else {
        None
    }
}

/// Whether the result of a preview is that of the order, but for the key that a posted order gets.
pub open spec fn foretells(preview: TradeResult, done: TradeResult) -> bool {
    preview == TradeResult {
        order_id: if done.posted_quantity > 0 {
            u128::MAX
        } else {
            done.order_id
        },
        ..done
    }
}

/// Matching in a preview finds what matching in earnest finds.
proof fn lemma_walk_tried(
    tried: Ledger,
    done: Ledger,
    taker: Taker,
    tally: Tally,
    keys: Seq<u128>,
    i: int,
    expired: Seq<u128>,
)
    requires
        !taker.preview,
        done.walk(taker, tally, keys, i, expired) is Ok,
        0 <= i,
        keys.no_duplicates(),
        forall|j: int|
            i <= j < keys.len() ==> done.side(taker.side.spec_opposite()).contains_key(
                #[trigger] keys[j],
            ) && tried.side(taker.side.spec_opposite())[keys[j]] == done.side(
                taker.side.spec_opposite(),
            )[keys[j]],
    ensures
        tried.walk((Taker { preview: true, ..taker }), tally, keys, i, expired) == Ok::<
            Walked,
            ErrorCode,
        >(
            Walked {
                ledger: tried,
                tally: done.walk(taker, tally, keys, i, expired)->Ok_0.tally,
                expired: done.walk(taker, tally, keys, i, expired)->Ok_0.expired,
            },
        ),
    decreases keys.len() - i,
{
    let maker = taker.side.spec_opposite();
    let trial = Taker { preview: true, ..taker };
    if i < keys.len() {
        let key = keys[i];
        let kept = done.side(maker)[key];
        assert(tried.side(maker)[keys[i]] == kept);
        if crate::ledger::is_expired(kept.value, taker.now) {
            lemma_walk_tried(tried, done, taker, tally, keys, i + 1, expired.push(key));
        } else if kept.owner == taker.user {
            lemma_walk_tried(tried, done, taker, tally, keys, i + 1, expired);
        } else if crate::ledger::within_limit(
            taker.side,
            taker.limit,
            crate::order_book::key_price(key),
        ) {
            let fill = taker.fill(tally, key, kept)->Ok_0;
            let next = taker.tallied(tally, fill)->Ok_0;
            assert(trial.fill(tally, key, kept) == taker.fill(tally, key, kept));
            assert(trial.tallied(tally, fill) == taker.tallied(tally, fill));
            assert(fill.key == key);
            done.lemma_filled_within(taker, fill);
            let after = done.filled(taker, fill)->Ok_0;
            if !fill.last {
                assert forall|j: int| i + 1 <= j < keys.len() implies after.side(maker).contains_key(
                    #[trigger] keys[j],
                ) && tried.side(maker)[keys[j]] == after.side(maker)[keys[j]] by {
                    assert(keys[j] != key);
                }
                lemma_walk_tried(tried, after, taker, next, keys, i + 1, expired);
            }
        }
    }
}

proof fn lemma_matched_tried(tried: Ledger, done: Ledger, taker: Taker, to_fill: u64)
    requires
        !taker.preview,
        done.matched(taker, to_fill) is Ok,
        done.side(taker.side.spec_opposite()).dom().finite(),
        tried.side(taker.side.spec_opposite()) == done.side(taker.side.spec_opposite()),
    ensures
        tried.matched((Taker { preview: true, ..taker }), to_fill) == Ok::<Walked, ErrorCode>(
            Walked {
                ledger: tried,
                tally: done.matched(taker, to_fill)->Ok_0.tally,
                expired: done.matched(taker, to_fill)->Ok_0.expired,
            },
        ),
{
    reveal(Ledger::matched);
    let maker = taker.side.spec_opposite();
    Ledger::lemma_best_first(maker, done.side(maker));
    lemma_walk_tried(
        tried,
        done,
        taker,
        Tally { to_fill, filled: 0, paid: 0, fee: 0 },
        crate::ledger::best_first(maker, done.side(maker)),
        0,
        Seq::empty(),
    );
}

/// A preview of a limit order changes nothing.
pub proof fn law_limit_preview_changes_nothing(ledger: Ledger, ctx: OrderContext, side: Side, order: LimitOrder, new_log: (Pubkey, nat))
    requires
        order.preview,
        ledger.side(side.spec_opposite()).dom().finite(),
    ensures
        crate::order_rules::limit(ledger, ctx, side, order, new_log) matches Ok(p) ==> p.desk == (Desk {
            ledger,
            purse: ctx.purse,
            new_log: None,
        }) && p.deposit is None && p.payout is None,
{
    reveal(crate::order_rules::readied);
    reveal(crate::order_rules::limit_opened);
    reveal(crate::order_rules::cleared);
    reveal(crate::order_rules::limit_rest);
    reveal(crate::order_rules::bid_closed);
    reveal(crate::order_rules::ask_closed);
    if crate::order_rules::limit(ledger, ctx, side, order, new_log) is Ok {
        let taker = crate::order_rules::limit_taker(ctx, side, order);
        assert(taker.preview && taker.side == side) by {
            reveal(crate::order_rules::limit_taker);
        }
        let opened = ledger.with_state(ledger.state);
        assert(opened == ledger);
        ledger.lemma_matched_within(taker, order.quantity);
    }
}

/// A preview of a market order changes nothing.
pub proof fn law_market_preview_changes_nothing(ledger: Ledger, ctx: OrderContext, side: Side, order: MarketOrder, new_log: (Pubkey, nat))
    requires
        order.preview,
        ledger.side(side.spec_opposite()).dom().finite(),
    ensures
        crate::order_rules::market(ledger, ctx, side, order, new_log) matches Ok(p) ==> p.desk == (Desk {
            ledger,
            purse: ctx.purse,
            new_log: None,
        }) && p.deposit is None && p.payout is None,
{
    reveal(crate::order_rules::readied);
    reveal(crate::order_rules::cleared);
    reveal(crate::order_rules::market_bid_closed);
    reveal(crate::order_rules::market_ask_closed);
    if crate::order_rules::market(ledger, ctx, side, order, new_log) is Ok {
        let taker = crate::order_rules::market_taker(ctx, side, order);
        assert(taker.preview && taker.side == side) by {
            reveal(crate::order_rules::market_taker);
        }
        assert(ledger.with_state(ledger.state) == ledger);
        ledger.lemma_matched_within(
            taker,
            if order.by_quantity {
                order.quantity
            } else {
                order.net_price
            },
        );
    }
}

/// Where a limit order goes through and the user can pay for it, its preview goes through and
/// foretells its result.
#[verifier::rlimit(30)]
pub proof fn law_limit_preview_foretells(ledger: Ledger, ctx: OrderContext, side: Side, order: LimitOrder, new_log: (Pubkey, nat))
    requires
        !order.preview,
        ledger.side(side.spec_opposite()).dom().finite(),
    ensures
        match (
            crate::order_rules::limit(ledger, ctx, side, order, new_log),
            crate::order_rules::limit(
                ledger,
                ctx,
                side,
                LimitOrder { preview: true, ..order },
                new_log,
            ),
        ) {
            (Ok(done), Ok(tried)) => {
                &&& foretells(tried.result, done.result)
                &&& tried.result.tokens_received == done.result.tokens_received
                &&& tried.result.tokens_sent == done.result.tokens_sent
                &&& tried.result.tokens_fee == done.result.tokens_fee
                &&& tried.result.posted_quantity == done.result.posted_quantity
                &&& ctx.can_pay(side, done.result.tokens_sent)
                &&& fault_of(ctx, side, done.result.tokens_sent) is None
            },
            (Ok(done), Err(e)) => {
                &&& !ctx.can_pay(side, done.result.tokens_sent)
                &&& fault_of(ctx, side, done.result.tokens_sent) == Some(e)
            },
            _ => true,
        },
{
    reveal(crate::order_rules::readied);
    reveal(crate::order_rules::limit_opened);
    reveal(crate::order_rules::cleared);
    reveal(crate::order_rules::limit_rest);
    let trial = LimitOrder { preview: true, ..order };
    if crate::order_rules::limit(ledger, ctx, side, order, new_log) is Ok {
        let taker = crate::order_rules::limit_taker(ctx, side, order);
        let trier = crate::order_rules::limit_taker(ctx, side, trial);
        assert(trier == (Taker { preview: true, ..taker }) && !taker.preview && taker.side == side) by {
            reveal(crate::order_rules::limit_taker);
        }
        let desk0 = Desk { ledger, purse: ctx.purse, new_log: None };
        let desk = crate::order_rules::readied(desk0, ctx, order.rollover, new_log)->Ok_0;
        assert(crate::order_rules::readied(desk0, ctx, false, new_log) == Ok::<Desk, ErrorCode>(desk0));
        let expiry = crate::order_rules::expiry_of(ctx.market, order.expires, ctx.now)->Ok_0;
        let brings = crate::order_rules::brought(side, order, taker.factor)->Ok_0;
        assert(crate::order_rules::brought(side, trial, trier.factor)
            == crate::order_rules::brought(side, order, taker.factor));
        let opened = crate::order_rules::limit_opened(desk.ledger, ctx, side, order, brings)->Ok_0;
        assert(ledger.with_state(ledger.state) == ledger);
        assert(crate::order_rules::limit_opened(ledger, ctx, side, trial, brings) == Ok::<
            Ledger,
            ErrorCode,
        >(ledger));
        assert(opened.side(side.spec_opposite()) == ledger.side(side.spec_opposite()));
        lemma_matched_tried(ledger, opened, taker, order.quantity);
        let walked = opened.matched(taker, order.quantity)->Ok_0;
        let swept = crate::order_rules::cleared(walked.ledger, taker, walked.expired)->Ok_0;
        let rest = crate::order_rules::limit_rest(swept, taker, order, expiry, walked.tally)->Ok_0;
        let tried_rest = crate::order_rules::limit_rest(ledger, trier, trial, expiry, walked.tally)->Ok_0;
        assert(tried_rest.paid == rest.paid && tried_rest.posted_quantity == rest.posted_quantity);
        match side {
            Side::Bid => {
                reveal(crate::order_rules::bid_closed);
            },
            Side::Ask => {
                reveal(crate::order_rules::ask_closed);
            },
        }
    }
}

/// Where a market order goes through and the user can pay for it, its preview goes through and has
/// the same result.
#[verifier::rlimit(30)]
pub proof fn law_market_preview_foretells(ledger: Ledger, ctx: OrderContext, side: Side, order: MarketOrder, new_log: (Pubkey, nat))
    requires
        !order.preview,
        ledger.side(side.spec_opposite()).dom().finite(),
    ensures
        match (
            crate::order_rules::market(ledger, ctx, side, order, new_log),
            crate::order_rules::market(
                ledger,
                ctx,
                side,
                MarketOrder { preview: true, ..order },
                new_log,
            ),
        ) {
            (Ok(done), Ok(tried)) => {
                &&& tried.result == done.result
                &&& ctx.can_pay(side, done.result.tokens_sent)
                &&& fault_of(ctx, side, done.result.tokens_sent) is None
            },
            (Ok(done), Err(e)) => {
                &&& !ctx.can_pay(side, done.result.tokens_sent)
                &&& fault_of(ctx, side, done.result.tokens_sent) == Some(e)
            },
            _ => true,
        },
{
    reveal(crate::order_rules::readied);
    reveal(crate::order_rules::cleared);
    let trial = MarketOrder { preview: true, ..order };
    if crate::order_rules::market(ledger, ctx, side, order, new_log) is Ok {
        let taker = crate::order_rules::market_taker(ctx, side, order);
        let trier = crate::order_rules::market_taker(ctx, side, trial);
        assert(trier == (Taker { preview: true, ..taker }) && !taker.preview && taker.side == side) by {
            reveal(crate::order_rules::market_taker);
        }
        let desk0 = Desk { ledger, purse: ctx.purse, new_log: None };
        let desk = crate::order_rules::readied(desk0, ctx, order.rollover, new_log)->Ok_0;
        assert(crate::order_rules::readied(desk0, ctx, false, new_log) == Ok::<Desk, ErrorCode>(desk0));
        let opened = desk.ledger.with_state(
            crate::order_rules::next_action(desk.ledger.state)->Ok_0,
        );
        let to_fill = if order.by_quantity {
            order.quantity
        } else {
            order.net_price
        };
        assert(ledger.with_state(ledger.state) == ledger);
        assert(opened.side(side.spec_opposite()) == ledger.side(side.spec_opposite()));
        lemma_matched_tried(ledger, opened, taker, to_fill);
        match side {
            Side::Bid => {
                reveal(crate::order_rules::market_bid_closed);
            },
            Side::Ask => {
                reveal(crate::order_rules::market_ask_closed);
            },
        }
    }
}

/// Where a preview goes through, the user has the tokens that the order would send, in an account
/// that is not frozen.
#[verifier::rlimit(30)]
pub proof fn law_preview_looks_at_funds(
    ledger: Ledger,
    ctx: OrderContext,
    side: Side,
    limit: LimitOrder,
    market: MarketOrder,
    new_log: (Pubkey, nat),
)
    requires
        limit.preview,
        market.preview,
    ensures
        crate::order_rules::limit(ledger, ctx, side, limit, new_log) matches Ok(p) ==> fault_of(
            ctx,
            side,
            p.result.tokens_sent,
        ) is None,
        crate::order_rules::market(ledger, ctx, side, market, new_log) matches Ok(p) ==> fault_of(
            ctx,
            side,
            p.result.tokens_sent,
        ) is None,
{
    reveal(crate::order_rules::bid_closed);
    reveal(crate::order_rules::ask_closed);
    reveal(crate::order_rules::market_bid_closed);
    reveal(crate::order_rules::market_ask_closed);
}

} // verus!
