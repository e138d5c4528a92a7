//! The records that the accounts of a market hold.
use crate::codec::{
    push_i64, push_u128, push_u32, push_u64, read_i64, read_u128, read_u32, read_u64, Record,
};
use crate::pubkey::{push_key, read_key, Pubkey};
use crate::shelf::Slotted;
use vstd::prelude::*;

verus! {

/// An order in the book: what is left of it, and when it expires (0: never).
#[derive(Copy, Clone, Debug)]
pub struct Order {
    pub amount: u64,
    pub expiry: i64,
}

impl Order {
    pub fn amount(&self) -> (r: u64)
        ensures
            r == self.amount,
    {
        self.amount
    }

    pub fn set_amount(&mut self, new_amount: u64)
        ensures
            *final(self) == (Order { amount: new_amount, ..*old(self) }),
    {
        self.amount = new_amount;
    }
}

/// The head of a settlement log: its market, its neighbours in the chain of logs, and how many
/// accounts it holds.
#[derive(Copy, Clone, Debug)]
pub struct AccountsHeader {
    pub market: Pubkey,
    pub prev: Pubkey,
    pub next: Pubkey,
    pub items: u32,
}

impl AccountsHeader {
    pub fn set_prev(&mut self, key: &Pubkey)
        ensures
            *final(self) == (AccountsHeader { prev: *key, ..*old(self) }),
    {
        self.prev = *key;
    }

    pub fn set_next(&mut self, key: &Pubkey)
        ensures
            *final(self) == (AccountsHeader { next: *key, ..*old(self) }),
    {
        self.next = *key;
    }
}

/// The tokens that a settlement log holds for one owner.
#[derive(Copy, Clone, Debug)]
pub struct AccountEntry {
    pub mkt_token_balance: u64,
    pub prc_token_balance: u64,
    pub ts_updated: i64,
}

impl AccountEntry {
    pub fn mkt_token_balance(&self) -> (r: u64)
        ensures
            r == self.mkt_token_balance,
    {
        self.mkt_token_balance
    }

    pub fn prc_token_balance(&self) -> (r: u64)
        ensures
            r == self.prc_token_balance,
    {
        self.prc_token_balance
    }

    pub fn ts_updated(&self) -> (r: i64)
        ensures
            r == self.ts_updated,
    {
        self.ts_updated
    }

    pub fn set_mkt_token_balance(&mut self, bal: u64)
        ensures
            *final(self) == (AccountEntry { mkt_token_balance: bal, ..*old(self) }),
    {
        self.mkt_token_balance = bal;
    }

    pub fn set_prc_token_balance(&mut self, bal: u64)
        ensures
            *final(self) == (AccountEntry { prc_token_balance: bal, ..*old(self) }),
    {
        self.prc_token_balance = bal;
    }

    pub fn set_ts_updated(&mut self, ts: i64)
        ensures
            *final(self) == (AccountEntry { ts_updated: ts, ..*old(self) }),
    {
        self.ts_updated = ts;
    }
}

/// The head of the trade log: trades so far, and how many the log keeps.
#[derive(Copy, Clone, Debug)]
pub struct TradeLogHeader {
    pub trade_count: u64,
    pub entry_max: u64,
}

/// One trade in the trade log.
#[derive(Copy, Clone, Debug)]
pub struct TradeEntry {
    pub event_type: u128,
    pub action_id: u64,
    pub trade_id: u64,
    pub maker_order_id: u128,
    pub maker_filled: bool,
    pub maker: Pubkey,
    pub taker: Pubkey,
    pub taker_side: u8,
    pub amount: u64,
    pub price: u64,
    pub ts: i64,
}

impl Record for Order {
    open spec fn spec_size() -> nat {
        16
    }

    open spec fn spec_align() -> nat {
        1
    }

    open spec fn encoded(&self) -> Seq<u8> {
        crate::codec::u64_bytes(self.amount)
            + crate::codec::i64_bytes(self.expiry)
    }

    open spec fn decoded(bytes: Seq<u8>) -> Self {
        Order {
            amount: crate::codec::u64_at(bytes, 0),
            expiry: crate::codec::i64_at(bytes, 8),
        }
    }

    proof fn lemma_layout() {
    }

    proof fn lemma_round_trip(&self) {
        crate::codec::lemma_integers();
        let s = self.encoded();
        assert(s.subrange(0, 8) =~= crate::codec::u64_bytes(self.amount));
        assert(s.subrange(8, 16) =~= crate::codec::i64_bytes(self.expiry));
        crate::codec::lemma_i64(self.expiry, s, 8);
    }

    fn size_of() -> (r: usize) {
        16
    }

    fn align_of() -> (r: usize) {
        1
    }

    fn encode(&self) -> (r: Vec<u8>) {
        let mut out: Vec<u8> = Vec::new();
        push_u64(&mut out, self.amount);
        push_i64(&mut out, self.expiry);
        assert(out@ =~= self.encoded());
        out
    }

    fn decode(bytes: &[u8]) -> (r: Self) {
        Order {
            amount: read_u64(bytes, 0),
            expiry: read_i64(bytes, 8),
        }
    }
}

impl Record for AccountsHeader {
    open spec fn spec_size() -> nat {
        100
    }

    open spec fn spec_align() -> nat {
        1
    }

    open spec fn encoded(&self) -> Seq<u8> {
        self.market.bytes@
            + self.prev.bytes@
            + self.next.bytes@
            + crate::codec::u32_bytes(self.items)
    }

    open spec fn decoded(bytes: Seq<u8>) -> Self {
        AccountsHeader {
            market: crate::pubkey::key_at(bytes, 0),
            prev: crate::pubkey::key_at(bytes, 32),
            next: crate::pubkey::key_at(bytes, 64),
            items: crate::codec::u32_at(bytes, 96),
        }
    }

    proof fn lemma_layout() {
    }

    proof fn lemma_round_trip(&self) {
        crate::codec::lemma_integers();
        let s = self.encoded();
        assert(s.subrange(0, 32) =~= self.market.bytes@);
        Pubkey::lemma_of(self.market);
        assert(s.subrange(32, 64) =~= self.prev.bytes@);
        Pubkey::lemma_of(self.prev);
        assert(s.subrange(64, 96) =~= self.next.bytes@);
        Pubkey::lemma_of(self.next);
        assert(s.subrange(96, 100) =~= crate::codec::u32_bytes(self.items));
    }

    fn size_of() -> (r: usize) {
        100
    }

    fn align_of() -> (r: usize) {
        1
    }

    fn encode(&self) -> (r: Vec<u8>) {
        let mut out: Vec<u8> = Vec::new();
        push_key(&mut out, &self.market);
        push_key(&mut out, &self.prev);
        push_key(&mut out, &self.next);
        push_u32(&mut out, self.items);
        assert(out@ =~= self.encoded());
        out
    }

    fn decode(bytes: &[u8]) -> (r: Self) {
        AccountsHeader {
            market: read_key(bytes, 0),
            prev: read_key(bytes, 32),
            next: read_key(bytes, 64),
            items: read_u32(bytes, 96),
        }
    }
}

impl Record for AccountEntry {
    open spec fn spec_size() -> nat {
        24
    }

    open spec fn spec_align() -> nat {
        1
    }

    open spec fn encoded(&self) -> Seq<u8> {
        crate::codec::u64_bytes(self.mkt_token_balance)
            + crate::codec::u64_bytes(self.prc_token_balance)
            + crate::codec::i64_bytes(self.ts_updated)
    }

    open spec fn decoded(bytes: Seq<u8>) -> Self {
        AccountEntry {
            mkt_token_balance: crate::codec::u64_at(bytes, 0),
            prc_token_balance: crate::codec::u64_at(bytes, 8),
            ts_updated: crate::codec::i64_at(bytes, 16),
        }
    }

    proof fn lemma_layout() {
    }

    proof fn lemma_round_trip(&self) {
        crate::codec::lemma_integers();
        let s = self.encoded();
        assert(s.subrange(0, 8) =~= crate::codec::u64_bytes(self.mkt_token_balance));
        assert(s.subrange(8, 16) =~= crate::codec::u64_bytes(self.prc_token_balance));
        assert(s.subrange(16, 24) =~= crate::codec::i64_bytes(self.ts_updated));
        crate::codec::lemma_i64(self.ts_updated, s, 16);
    }

    fn size_of() -> (r: usize) {
        24
    }

    fn align_of() -> (r: usize) {
        1
    }

    fn encode(&self) -> (r: Vec<u8>) {
        let mut out: Vec<u8> = Vec::new();
        push_u64(&mut out, self.mkt_token_balance);
        push_u64(&mut out, self.prc_token_balance);
        push_i64(&mut out, self.ts_updated);
        assert(out@ =~= self.encoded());
        out
    }

    fn decode(bytes: &[u8]) -> (r: Self) {
        AccountEntry {
            mkt_token_balance: read_u64(bytes, 0),
            prc_token_balance: read_u64(bytes, 8),
            ts_updated: read_i64(bytes, 16),
        }
    }
}

impl Record for TradeLogHeader {
    open spec fn spec_size() -> nat {
        16
    }

    open spec fn spec_align() -> nat {
        1
    }

    open spec fn encoded(&self) -> Seq<u8> {
        crate::codec::u64_bytes(self.trade_count)
            + crate::codec::u64_bytes(self.entry_max)
    }

    open spec fn decoded(bytes: Seq<u8>) -> Self {
        TradeLogHeader {
            trade_count: crate::codec::u64_at(bytes, 0),
            entry_max: crate::codec::u64_at(bytes, 8),
        }
    }

    proof fn lemma_layout() {
    }

    proof fn lemma_round_trip(&self) {
        crate::codec::lemma_integers();
        let s = self.encoded();
        assert(s.subrange(0, 8) =~= crate::codec::u64_bytes(self.trade_count));
        assert(s.subrange(8, 16) =~= crate::codec::u64_bytes(self.entry_max));
    }

    fn size_of() -> (r: usize) {
        16
    }

    fn align_of() -> (r: usize) {
        1
    }

    fn encode(&self) -> (r: Vec<u8>) {
        let mut out: Vec<u8> = Vec::new();
        push_u64(&mut out, self.trade_count);
        push_u64(&mut out, self.entry_max);
        assert(out@ =~= self.encoded());
        out
    }

    fn decode(bytes: &[u8]) -> (r: Self) {
        TradeLogHeader {
            trade_count: read_u64(bytes, 0),
            entry_max: read_u64(bytes, 8),
        }
    }
}

impl Record for TradeEntry {
    open spec fn spec_size() -> nat {
        138
    }

    open spec fn spec_align() -> nat {
        1
    }

    open spec fn encoded(&self) -> Seq<u8> {
        crate::codec::u128_bytes(self.event_type)
            + crate::codec::u64_bytes(self.action_id)
            + crate::codec::u64_bytes(self.trade_id)
            + crate::codec::u128_bytes(self.maker_order_id)
            + seq![if self.maker_filled { 1u8 } else { 0u8 }]
            + self.maker.bytes@
            + self.taker.bytes@
            + seq![self.taker_side]
            + crate::codec::u64_bytes(self.amount)
            + crate::codec::u64_bytes(self.price)
            + crate::codec::i64_bytes(self.ts)
    }

    open spec fn decoded(bytes: Seq<u8>) -> Self {
        TradeEntry {
            event_type: crate::codec::u128_at(bytes, 0),
            action_id: crate::codec::u64_at(bytes, 16),
            trade_id: crate::codec::u64_at(bytes, 24),
            maker_order_id: crate::codec::u128_at(bytes, 32),
            maker_filled: bytes[48] != 0,
            maker: crate::pubkey::key_at(bytes, 49),
            taker: crate::pubkey::key_at(bytes, 81),
            taker_side: bytes[113],
            amount: crate::codec::u64_at(bytes, 114),
            price: crate::codec::u64_at(bytes, 122),
            ts: crate::codec::i64_at(bytes, 130),
        }
    }

    proof fn lemma_layout() {
    }

    proof fn lemma_round_trip(&self) {
        crate::codec::lemma_integers();
        let s = self.encoded();
        assert(s.subrange(0, 16) =~= crate::codec::u128_bytes(self.event_type));
        assert(s.subrange(16, 24) =~= crate::codec::u64_bytes(self.action_id));
        assert(s.subrange(24, 32) =~= crate::codec::u64_bytes(self.trade_id));
        assert(s.subrange(32, 48) =~= crate::codec::u128_bytes(self.maker_order_id));
        assert(s.subrange(49, 81) =~= self.maker.bytes@);
        Pubkey::lemma_of(self.maker);
        assert(s.subrange(81, 113) =~= self.taker.bytes@);
        Pubkey::lemma_of(self.taker);
        assert(s.subrange(114, 122) =~= crate::codec::u64_bytes(self.amount));
        assert(s.subrange(122, 130) =~= crate::codec::u64_bytes(self.price));
        assert(s.subrange(130, 138) =~= crate::codec::i64_bytes(self.ts));
        crate::codec::lemma_i64(self.ts, s, 130);
    }

    fn size_of() -> (r: usize) {
        138
    }

    fn align_of() -> (r: usize) {
        1
    }

    fn encode(&self) -> (r: Vec<u8>) {
        let mut out: Vec<u8> = Vec::new();
        push_u128(&mut out, self.event_type);
        push_u64(&mut out, self.action_id);
        push_u64(&mut out, self.trade_id);
        push_u128(&mut out, self.maker_order_id);
        out.push(if self.maker_filled { 1 } else { 0 });
        push_key(&mut out, &self.maker);
        push_key(&mut out, &self.taker);
        out.push(self.taker_side);
        push_u64(&mut out, self.amount);
        push_u64(&mut out, self.price);
        push_i64(&mut out, self.ts);
        assert(out@ =~= self.encoded());
        out
    }

    fn decode(bytes: &[u8]) -> (r: Self) {
        TradeEntry {
            event_type: read_u128(bytes, 0),
            action_id: read_u64(bytes, 16),
            trade_id: read_u64(bytes, 24),
            maker_order_id: read_u128(bytes, 32),
            maker_filled: bytes[48] != 0,
            maker: read_key(bytes, 49),
            taker: read_key(bytes, 81),
            taker_side: bytes[113],
            amount: read_u64(bytes, 114),
            price: read_u64(bytes, 122),
            ts: read_i64(bytes, 130),
        }
    }
}

impl Slotted for Order {
    open spec fn spec_link(&self) -> u64 {
        self.amount
    }

    open spec fn spec_linked(&self, link: u64) -> Self {
        Order { amount: link, ..*self }
    }

    proof fn lemma_linked(&self, link: u64) {
    }

    fn link(&self) -> (r: u64) {
        self.amount()
    }

    fn linked(&self, link: u64) -> (r: Self) {
        let mut r: Order = *self;
        r.set_amount(link);
        r
    }
}

impl Slotted for AccountEntry {
    open spec fn spec_link(&self) -> u64 {
        self.mkt_token_balance
    }

    open spec fn spec_linked(&self, link: u64) -> Self {
        AccountEntry { mkt_token_balance: link, ..*self }
    }

    proof fn lemma_linked(&self, link: u64) {
    }

    fn link(&self) -> (r: u64) {
        self.mkt_token_balance()
    }

    fn linked(&self, link: u64) -> (r: Self) {
        let mut r: AccountEntry = *self;
        r.set_mkt_token_balance(link);
        r
    }
}

} // verus!
