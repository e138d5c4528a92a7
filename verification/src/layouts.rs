//! Where the fields of records lie in their bytes.
use crate::codec::Record;
use crate::records::{AccountEntry, AccountsHeader, Order, TradeEntry, TradeLogHeader};
use vstd::prelude::*;

verus! {

/// Whether bytes have other bytes at a place.
pub open spec fn has_at(bytes: Seq<u8>, at: int, part: Seq<u8>) -> bool {
    at + part.len() <= bytes.len() && bytes.subrange(at, at + part.len()) == part
}

/// An order is its amount and its expiry, in 16 bytes.
pub proof fn law_order_layout(x: Order)
    ensures
        x.encoded().len() == 16,
        has_at(x.encoded(), 0, vstd::bytes::spec_u64_to_le_bytes(x.amount)),
        has_at(x.encoded(), 8, vstd::bytes::spec_u64_to_le_bytes(x.expiry as u64)),
{
    crate::codec::lemma_integers();
    x.lemma_round_trip();
    let b = x.encoded();
    assert(vstd::bytes::spec_u64_to_le_bytes(x.amount) == crate::codec::u64_bytes(x.amount));
    assert(vstd::bytes::spec_u64_to_le_bytes(x.expiry as u64) == crate::codec::u64_bytes(x.expiry as u64));
    assert(b.subrange(0, 8) =~= crate::codec::u64_bytes(x.amount));
    assert(b.subrange(8, 16) =~= crate::codec::u64_bytes(x.expiry as u64));
}

/// The head of a settlement log is the market, the logs before and after it and the number of its
/// accounts, in 100 bytes.
pub proof fn law_log_header_layout(x: AccountsHeader)
    ensures
        x.encoded().len() == 100,
        has_at(x.encoded(), 0, x.market.bytes@),
        has_at(x.encoded(), 32, x.prev.bytes@),
        has_at(x.encoded(), 64, x.next.bytes@),
        has_at(x.encoded(), 96, vstd::bytes::spec_u32_to_le_bytes(x.items)),
{
    crate::codec::lemma_integers();
    x.lemma_round_trip();
    let b = x.encoded();
    assert(vstd::bytes::spec_u32_to_le_bytes(x.items) == crate::codec::u32_bytes(x.items));
    assert(b.subrange(0, 32) =~= x.market.bytes@);
    assert(b.subrange(32, 64) =~= x.prev.bytes@);
    assert(b.subrange(64, 96) =~= x.next.bytes@);
    assert(b.subrange(96, 100) =~= crate::codec::u32_bytes(x.items));
}

/// An account in a settlement log is its two balances and the time it was opened, in 24 bytes.
pub proof fn law_account_layout(x: AccountEntry)
    ensures
        x.encoded().len() == 24,
        has_at(x.encoded(), 0, vstd::bytes::spec_u64_to_le_bytes(x.mkt_token_balance)),
        has_at(x.encoded(), 8, vstd::bytes::spec_u64_to_le_bytes(x.prc_token_balance)),
        has_at(x.encoded(), 16, vstd::bytes::spec_u64_to_le_bytes(x.ts_updated as u64)),
{
    crate::codec::lemma_integers();
    x.lemma_round_trip();
    let b = x.encoded();
    assert(vstd::bytes::spec_u64_to_le_bytes(x.mkt_token_balance) == crate::codec::u64_bytes(x.mkt_token_balance));
    assert(vstd::bytes::spec_u64_to_le_bytes(x.prc_token_balance) == crate::codec::u64_bytes(x.prc_token_balance));
    assert(vstd::bytes::spec_u64_to_le_bytes(x.ts_updated as u64) == crate::codec::u64_bytes(x.ts_updated as u64));
    assert(b.subrange(0, 8) =~= crate::codec::u64_bytes(x.mkt_token_balance));
    assert(b.subrange(8, 16) =~= crate::codec::u64_bytes(x.prc_token_balance));
    assert(b.subrange(16, 24) =~= crate::codec::u64_bytes(x.ts_updated as u64));
}

/// The head of the trade log is the number of trades so far and the number that it keeps, in 16
/// bytes.
pub proof fn law_trade_header_layout(x: TradeLogHeader)
    ensures
        x.encoded().len() == 16,
        has_at(x.encoded(), 0, vstd::bytes::spec_u64_to_le_bytes(x.trade_count)),
        has_at(x.encoded(), 8, vstd::bytes::spec_u64_to_le_bytes(x.entry_max)),
{
    crate::codec::lemma_integers();
    x.lemma_round_trip();
    let b = x.encoded();
    assert(vstd::bytes::spec_u64_to_le_bytes(x.trade_count) == crate::codec::u64_bytes(x.trade_count));
    assert(vstd::bytes::spec_u64_to_le_bytes(x.entry_max) == crate::codec::u64_bytes(x.entry_max));
    assert(b.subrange(0, 8) =~= crate::codec::u64_bytes(x.trade_count));
    assert(b.subrange(8, 16) =~= crate::codec::u64_bytes(x.entry_max));
}

/// A trade in the trade log takes 138 bytes.
pub proof fn law_trade_layout(x: TradeEntry)
    ensures
        x.encoded().len() == 138,
        has_at(x.encoded(), 0, vstd::bytes::spec_u128_to_le_bytes(x.event_type)),
        has_at(x.encoded(), 16, vstd::bytes::spec_u64_to_le_bytes(x.action_id)),
        has_at(x.encoded(), 24, vstd::bytes::spec_u64_to_le_bytes(x.trade_id)),
        has_at(x.encoded(), 32, vstd::bytes::spec_u128_to_le_bytes(x.maker_order_id)),
        x.encoded()[48] == if x.maker_filled {
            1u8
        } else {
            0u8
        },
        has_at(x.encoded(), 49, x.maker.bytes@),
        has_at(x.encoded(), 81, x.taker.bytes@),
        x.encoded()[113] == x.taker_side,
        has_at(x.encoded(), 114, vstd::bytes::spec_u64_to_le_bytes(x.amount)),
        has_at(x.encoded(), 122, vstd::bytes::spec_u64_to_le_bytes(x.price)),
        has_at(x.encoded(), 130, vstd::bytes::spec_u64_to_le_bytes(x.ts as u64)),
{
    crate::codec::lemma_integers();
    x.lemma_round_trip();
    let b = x.encoded();
    assert(vstd::bytes::spec_u128_to_le_bytes(x.event_type) == crate::codec::u128_bytes(x.event_type));
    assert(vstd::bytes::spec_u128_to_le_bytes(x.maker_order_id) == crate::codec::u128_bytes(
        x.maker_order_id,
    ));
    assert(vstd::bytes::spec_u64_to_le_bytes(x.action_id) == crate::codec::u64_bytes(x.action_id));
    assert(vstd::bytes::spec_u64_to_le_bytes(x.trade_id) == crate::codec::u64_bytes(x.trade_id));
    assert(vstd::bytes::spec_u64_to_le_bytes(x.amount) == crate::codec::u64_bytes(x.amount));
    assert(vstd::bytes::spec_u64_to_le_bytes(x.price) == crate::codec::u64_bytes(x.price));
    assert(vstd::bytes::spec_u64_to_le_bytes(x.ts as u64) == crate::codec::u64_bytes(x.ts as u64));
    assert(b.subrange(0, 16) =~= crate::codec::u128_bytes(x.event_type));
    assert(b.subrange(16, 24) =~= crate::codec::u64_bytes(x.action_id));
    assert(b.subrange(24, 32) =~= crate::codec::u64_bytes(x.trade_id));
    assert(b.subrange(32, 48) =~= crate::codec::u128_bytes(x.maker_order_id));
    assert(b.subrange(49, 81) =~= x.maker.bytes@);
    assert(b.subrange(81, 113) =~= x.taker.bytes@);
    assert(b.subrange(114, 122) =~= crate::codec::u64_bytes(x.amount));
    assert(b.subrange(122, 130) =~= crate::codec::u64_bytes(x.price));
    assert(b.subrange(130, 138) =~= crate::codec::u64_bytes(x.ts as u64));
}

} // verus!
