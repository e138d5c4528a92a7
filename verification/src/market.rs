//! A market, its state, and what its instructions report.
use crate::pubkey::Pubkey;
use vstd::prelude::*;

verus! {

pub const VERSION_MAJOR: u32 = 1;

pub const VERSION_MINOR: u32 = 0;

pub const VERSION_PATCH: u32 = 0;

/// Slots for the nodes and for the orders of each side of the book.
pub const MAX_ORDERS: u32 = 500;

/// Trades that the trade log keeps.
pub const MAX_TRADES: u32 = 100;

/// Slots for the nodes and for the accounts of a settlement log.
pub const MAX_ACCOUNTS: u32 = 1500;

/// Orders that are evicted at most to make room for one.
pub const MAX_EVICTIONS: u32 = 10;

/// Expired orders that are removed at most in the course of one order.
pub const MAX_EXPIRATIONS: u32 = 10;

/// A side of the book.
#[derive(Clone, Copy, Debug, PartialEq, Eq, Structural)]
pub enum Side {
    Bid,
    Ask,
}

/// The program that keeps the accounts of a token.
#[derive(Clone, Copy, Debug, PartialEq, Eq, Structural)]
pub enum MintType {
    SPLToken,
    AtxSecurityToken,
}

/// All types of data in a slab.
#[derive(Clone, Copy, Debug, PartialEq, Eq, Structural)]
pub enum DT {
    BidOrderMap,
    BidOrder,
    AskOrderMap,
    AskOrder,
    AccountMap,
    Account,
}

/// The types of data in the slab of the book.
#[derive(Clone, Copy, Debug, PartialEq, Eq, Structural)]
pub enum OrderDT {
    BidOrderMap,
    AskOrderMap,
    BidOrder,
    AskOrder,
}

/// The types of data in the slab of a settlement log.
#[derive(Clone, Copy, Debug, PartialEq, Eq, Structural)]
pub enum SettleDT {
    AccountMap,
    Account,
}

/// Why an instruction is refused.
#[derive(Clone, Copy, Debug, PartialEq, Eq, Structural)]
pub enum ErrorCode {
    AccessDenied,
    TokenAccountFrozen,
    InsufficientTokens,
    MarketClosed,
    AccountNotFound,
    RecordNotFound,
    OrderNotFound,
    InvalidParameters,
    InvalidAccount,
    InvalidDerivedAccount,
    VaultNotEmpty,
    OrderNotFilled,
    InternalError,
    ExternalError,
    SettlementLogFull,
    SettlementLogNotEmpty,
    OrderbookFull,
    RetrySettlementAccount,
    QuantityBelowMinimum,
    Overflow,
}

impl ErrorCode {
    /// The message that goes with an error.
    pub fn message(&self) -> (r: String)
        ensures
            r@ == self.text(),
    {
        match self {
            ErrorCode::AccessDenied => String::from_str("Access denied"),
            ErrorCode::TokenAccountFrozen => String::from_str("Token account frozen"),
            ErrorCode::InsufficientTokens => String::from_str("Insufficient tokens"),
            ErrorCode::MarketClosed => String::from_str("Market closed"),
            ErrorCode::AccountNotFound => String::from_str("Account not found"),
            ErrorCode::RecordNotFound => String::from_str("Record not found"),
            ErrorCode::OrderNotFound => String::from_str("Order not found"),
            ErrorCode::InvalidParameters => String::from_str("Invalid parameters"),
            ErrorCode::InvalidAccount => String::from_str("Invalid account"),
            ErrorCode::InvalidDerivedAccount => String::from_str("Invalid derived account"),
            ErrorCode::VaultNotEmpty => String::from_str("Vault not empty"),
            ErrorCode::OrderNotFilled => String::from_str("Order not filled"),
            ErrorCode::InternalError => String::from_str("Internal error"),
            ErrorCode::ExternalError => String::from_str("External error"),
            ErrorCode::SettlementLogFull => String::from_str("Settlement log full"),
            ErrorCode::SettlementLogNotEmpty => String::from_str("Settlement log not empty"),
            ErrorCode::OrderbookFull => String::from_str("Orderbook full"),
            ErrorCode::RetrySettlementAccount => String::from_str(
                "Settlement log account does not match market, please update market data and retry",
            ),
            ErrorCode::QuantityBelowMinimum => String::from_str("Quantity below minimum"),
            ErrorCode::Overflow => String::from_str("Overflow"),
        }
    }

    pub open spec fn text(self) -> Seq<char> {
        match self {
            ErrorCode::AccessDenied => "Access denied"@,
            ErrorCode::TokenAccountFrozen => "Token account frozen"@,
            ErrorCode::InsufficientTokens => "Insufficient tokens"@,
            ErrorCode::MarketClosed => "Market closed"@,
            ErrorCode::AccountNotFound => "Account not found"@,
            ErrorCode::RecordNotFound => "Record not found"@,
            ErrorCode::OrderNotFound => "Order not found"@,
            ErrorCode::InvalidParameters => "Invalid parameters"@,
            ErrorCode::InvalidAccount => "Invalid account"@,
            ErrorCode::InvalidDerivedAccount => "Invalid derived account"@,
            ErrorCode::VaultNotEmpty => "Vault not empty"@,
            ErrorCode::OrderNotFilled => "Order not filled"@,
            ErrorCode::InternalError => "Internal error"@,
            ErrorCode::ExternalError => "External error"@,
            ErrorCode::SettlementLogFull => "Settlement log full"@,
            ErrorCode::SettlementLogNotEmpty => "Settlement log not empty"@,
            ErrorCode::OrderbookFull => "Orderbook full"@,
            ErrorCode::RetrySettlementAccount =>
                "Settlement log account does not match market, please update market data and retry"@,
            ErrorCode::QuantityBelowMinimum => "Quantity below minimum"@,
            ErrorCode::Overflow => "Overflow"@,
        }
    }
}

impl Side {
    /// The number of a side in events and in the trade log.
    pub open spec fn spec_code(self) -> u8 {
        match self {
            Side::Bid => 0,
            Side::Ask => 1,
        }
    }

    pub fn code(&self) -> (r: u8)
        ensures
            r == self.spec_code(),
    {
        match self {
            Side::Bid => 0,
            Side::Ask => 1,
        }
    }

    /// The side of a number, if it is one.
    pub open spec fn spec_of(code: u8) -> Option<Side> {
        if code == 0 {
            Some(Side::Bid)
        } else if code == 1 {
            Some(Side::Ask)
        } else {
            None
        }
    }

    pub fn of(code: u8) -> (r: Option<Side>)
        ensures
            r == Side::spec_of(code),
    {
        if code == 0 {
            Some(Side::Bid)
        } else if code == 1 {
            Some(Side::Ask)
        } else {
            None
        }
    }

    /// The side that an order of this side trades with.
    pub open spec fn spec_opposite(self) -> Side {
        match self {
            Side::Bid => Side::Ask,
            Side::Ask => Side::Bid,
        }
    }

    pub fn opposite(&self) -> (r: Side)
        ensures
            r == self.spec_opposite(),
    {
        match self {
            Side::Bid => Side::Ask,
            Side::Ask => Side::Bid,
        }
    }
}

impl MintType {
    /// The token program of a number, if it is one.
    pub open spec fn spec_of(code: u8) -> Result<MintType, ErrorCode> {
        if code == 0 {
            Ok(MintType::SPLToken)
        } else if code == 1 {
            Ok(MintType::AtxSecurityToken)
        } else {
            Err(ErrorCode::InvalidParameters)
        }
    }

    pub fn of(code: u8) -> (r: Result<MintType, ErrorCode>)
        ensures
            r == MintType::spec_of(code),
    {
        if code == 0 {
            Ok(MintType::SPLToken)
        } else if code == 1 {
            Ok(MintType::AtxSecurityToken)
        } else {
            Err(ErrorCode::InvalidParameters)
        }
    }
}

/// Whether a type of data has a map of its own.
pub open spec fn is_mapped(data_type: DT) -> bool {
    data_type == DT::BidOrder || data_type == DT::AskOrder || data_type == DT::Account
}

pub open spec fn spec_map_datatype(data_type: DT) -> u16 {
    match data_type {
        DT::AskOrder => 1,
        _ => 0,
    }
}

/// The entry of the map of a type of data.
pub fn map_datatype(data_type: DT) -> (r: u16)
    requires
        is_mapped(data_type),
    ensures
        r == spec_map_datatype(data_type),
{
    match data_type {
        DT::AskOrder => 1,
        _ => 0,
    }
}

pub open spec fn spec_index_datatype(data_type: DT) -> u16 {
    match data_type {
        DT::BidOrder => 2,
        DT::AskOrder => 3,
        _ => 1,
    }
}

/// The entry of the records of a type of data.
pub fn index_datatype(data_type: DT) -> (r: u16)
    requires
        is_mapped(data_type),
    ensures
        r == spec_index_datatype(data_type),
{
    match data_type {
        DT::BidOrder => 2,
        DT::AskOrder => 3,
        _ => 1,
    }
}

/// Slots of the map of a type of data.
pub fn map_len(data_type: DT) -> (r: u32)
    requires
        is_mapped(data_type),
    ensures
        r == if data_type == DT::Account {
            MAX_ACCOUNTS
        } else {
            MAX_ORDERS
        },
{
    match data_type {
        DT::Account => MAX_ACCOUNTS,
        _ => MAX_ORDERS,
    }
}

/// What is fixed when a market is made, and what its manager can change.
#[derive(Clone, Copy, Debug)]
pub struct Market {
    pub active: bool,
    /// Whether the manager may withdraw tokens of users.
    pub manager_withdraw: bool,
    /// Whether the manager may cancel orders of users.
    pub manager_cancel: bool,
    /// Whether orders can expire.
    pub expire_enable: bool,
    /// The least time between posting an order and its expiry.
    pub expire_min: i64,
    /// The least quantity to trade.
    pub min_quantity: u64,
    /// Lamports that a posted order deposits for space in the settlement log.
    pub log_fee: u64,
    /// Lamports that a withdrawal gives back.
    pub log_rebate: u64,
    /// Lamports that are given for a new settlement log.
    pub log_reimburse: u64,
    /// Commission of the taker, in ten millionths.
    pub taker_fee: u32,
    pub state: Pubkey,
    pub trade_log: Pubkey,
    /// The address that signs transfers out of the vaults.
    pub agent: Pubkey,
    pub agent_nonce: u8,
    pub manager: Pubkey,
    pub mkt_mint: Pubkey,
    pub mkt_vault: Pubkey,
    pub mkt_nonce: u8,
    pub mkt_decimals: u8,
    pub mkt_mint_type: u8,
    pub prc_mint: Pubkey,
    pub prc_vault: Pubkey,
    pub prc_nonce: u8,
    pub prc_decimals: u8,
    pub prc_mint_type: u8,
    pub orders: Pubkey,
    /// The first settlement log.
    pub settle_0: Pubkey,
}

/// What changes as a market is used.
#[derive(Clone, Copy, Debug)]
pub struct MarketState {
    /// The active settlement log.
    pub settle_a: Pubkey,
    /// The settlement log that comes next.
    pub settle_b: Pubkey,
    /// Whether a new settlement log is asked for.
    pub log_rollover: bool,
    /// Lamports deposited for new settlement logs.
    pub log_deposit_balance: u64,
    pub action_counter: u64,
    pub trade_counter: u64,
    /// The lower half of the next order's key.
    pub order_counter: u64,
    pub active_bid: u64,
    pub active_ask: u64,
    /// Market tokens in the vault.
    pub mkt_vault_balance: u64,
    /// Those that belong to orders.
    pub mkt_order_balance: u64,
    /// Those that belong to user vaults.
    pub mkt_user_vault_balance: u64,
    /// Those that belong to settled accounts.
    pub mkt_log_balance: u64,
    pub prc_vault_balance: u64,
    pub prc_order_balance: u64,
    pub prc_user_vault_balance: u64,
    pub prc_log_balance: u64,
    /// Pricing tokens taken as commission.
    pub prc_fees_balance: u64,
    /// When the last order was filled, or the market made.
    pub last_ts: i64,
    pub last_price: u64,
}

/// Tokens that a user keeps with a market.
#[derive(Clone, Copy, Debug)]
pub struct UserVault {
    pub initialized: bool,
    pub market: Pubkey,
    pub owner: Pubkey,
    pub mkt_tokens: u64,
    pub prc_tokens: u64,
}

/// What an order came to.
#[derive(Clone, Copy, Debug)]
pub struct TradeResult {
    pub tokens_received: u64,
    /// Tokens deposited: the cost of what was filled and what was posted.
    pub tokens_sent: u64,
    pub tokens_fee: u64,
    pub posted_quantity: u64,
    pub order_id: u128,
}

impl TradeResult {
    pub fn set_tokens_received(&mut self, new_amount: u64)
        ensures
            *final(self) == (TradeResult { tokens_received: new_amount, ..*old(self) }),
    {
        self.tokens_received = new_amount;
    }

    pub fn set_posted_quantity(&mut self, new_amount: u64)
        ensures
            *final(self) == (TradeResult { posted_quantity: new_amount, ..*old(self) }),
    {
        self.posted_quantity = new_amount;
    }

    pub fn set_tokens_sent(&mut self, new_amount: u64)
        ensures
            *final(self) == (TradeResult { tokens_sent: new_amount, ..*old(self) }),
    {
        self.tokens_sent = new_amount;
    }

    pub fn set_order_id(&mut self, new_amount: u128)
        ensures
            *final(self) == (TradeResult { order_id: new_amount, ..*old(self) }),
    {
        self.order_id = new_amount;
    }
}

/// Tokens that were withdrawn.
#[derive(Clone, Copy, Debug)]
pub struct WithdrawResult {
    pub mkt_tokens: u64,
    pub prc_tokens: u64,
}

impl WithdrawResult {
    pub fn set_mkt_tokens(&mut self, new_amount: u64)
        ensures
            *final(self) == (WithdrawResult { mkt_tokens: new_amount, ..*old(self) }),
    {
        self.mkt_tokens = new_amount;
    }

    pub fn set_prc_tokens(&mut self, new_amount: u64)
        ensures
            *final(self) == (WithdrawResult { prc_tokens: new_amount, ..*old(self) }),
    {
        self.prc_tokens = new_amount;
    }
}

/// The place of a settlement log in the chain of logs, and how many accounts it holds.
#[derive(Clone, Copy, Debug)]
pub struct LogStatusResult {
    pub prev: Pubkey,
    pub next: Pubkey,
    pub items: u32,
}

#[derive(Clone, Copy, Debug)]
pub struct MatchEvent {
    pub event_type: u128,
    pub action_id: u64,
    pub trade_id: u64,
    pub market: Pubkey,
    pub maker_order_id: u128,
    pub maker_filled: bool,
    pub maker: Pubkey,
    pub taker: Pubkey,
    pub taker_side: u8,
    pub amount: u64,
    pub price: u64,
    pub ts: i64,
}

#[derive(Clone, Copy, Debug)]
pub struct OrderEvent {
    pub event_type: u128,
    pub action_id: u64,
    pub market: Pubkey,
    pub user: Pubkey,
    pub market_token: Pubkey,
    pub pricing_token: Pubkey,
    pub order_side: u8,
    pub order_id: u128,
    pub filled: bool,
    pub tokens_sent: u64,
    pub tokens_received: u64,
    pub tokens_fee: u64,
    pub posted: bool,
    pub posted_quantity: u64,
    pub order_price: u64,
    pub order_quantity: u64,
    pub expires: i64,
}

#[derive(Clone, Copy, Debug)]
pub struct CancelEvent {
    pub event_type: u128,
    pub action_id: u64,
    pub market: Pubkey,
    pub owner: Pubkey,
    pub user: Pubkey,
    pub market_token: Pubkey,
    pub pricing_token: Pubkey,
    pub manager: bool,
    pub order_side: u8,
    pub order_id: u128,
    pub order_price: u64,
    pub order_quantity: u64,
    pub token_withdrawn: u64,
}

#[derive(Clone, Copy, Debug)]
pub struct ExpireEvent {
    pub event_type: u128,
    pub action_id: u64,
    pub market: Pubkey,
    pub owner: Pubkey,
    pub order_side: u8,
    pub order_id: u128,
    pub price: u64,
    pub quantity: u64,
    pub tokens: u64,
}

#[derive(Clone, Copy, Debug)]
pub struct WithdrawEvent {
    pub event_type: u128,
    pub action_id: u64,
    pub market: Pubkey,
    pub owner: Pubkey,
    pub user: Pubkey,
    pub market_account: Pubkey,
    pub pricing_account: Pubkey,
    pub manager: bool,
    pub market_tokens: u64,
    pub pricing_tokens: u64,
}

#[derive(Clone, Copy, Debug)]
pub struct SettleEvent {
    pub event_type: u128,
    pub action_id: u64,
    pub market: Pubkey,
    pub owner: Pubkey,
    pub settlement_log: Pubkey,
    pub market_tokens: u64,
    pub pricing_tokens: u64,
}

#[derive(Clone, Copy, Debug)]
pub struct VaultDepositEvent {
    pub event_type: u128,
    pub action_id: u64,
    pub market: Pubkey,
    pub owner: Pubkey,
    pub vault: Pubkey,
    pub market_tokens: u64,
    pub market_balance: u64,
    pub pricing_tokens: u64,
    pub pricing_balance: u64,
}

#[derive(Clone, Copy, Debug)]
pub struct VaultWithdrawEvent {
    pub event_type: u128,
    pub action_id: u64,
    pub market: Pubkey,
    pub owner: Pubkey,
    pub user: Pubkey,
    pub vault: Pubkey,
    pub market_account: Pubkey,
    pub pricing_account: Pubkey,
    pub manager: bool,
    pub market_tokens: u64,
    pub pricing_tokens: u64,
}

/// Anything that an instruction reports.
#[derive(Clone, Copy, Debug)]
pub enum Event {
    Match(MatchEvent),
    Order(OrderEvent),
    Cancel(CancelEvent),
    Expire(ExpireEvent),
    Withdraw(WithdrawEvent),
    Settle(SettleEvent),
    VaultDeposit(VaultDepositEvent),
    VaultWithdraw(VaultWithdrawEvent),
}

} // verus!
