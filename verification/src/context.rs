//! What instructions are given besides the accounts they change, and what they hand back.
use crate::market::{ErrorCode, Market, MintType, TradeResult};
use crate::pubkey::Pubkey;
use crate::settlement::SettleLog;
use vstd::prelude::*;

verus! {

/// A token account of a user.
#[derive(Clone, Copy, Debug)]
pub struct TokenAccount {
    pub key: Pubkey,
    pub frozen: bool,
    pub amount: u64,
}

/// The accounts that come with an order, but for those that it changes.
#[derive(Clone, Copy, Debug)]
pub struct OrderContext {
    pub market_key: Pubkey,
    pub market: Market,
    pub state_key: Pubkey,
    pub agent: Pubkey,
    pub user: Pubkey,
    pub user_mkt_token: TokenAccount,
    pub user_prc_token: TokenAccount,
    pub mkt_vault: Pubkey,
    pub prc_vault: Pubkey,
    pub result: Pubkey,
    /// The time.
    pub now: i64,
    pub purse: Purse,
}

/// The lamports of the user and of the market's state account.
#[derive(Clone, Copy, Debug)]
pub struct Purse {
    pub user_lamports: u64,
    pub state_lamports: u64,
}

/// A transfer of tokens that is to be made.
#[derive(Clone, Copy, Debug)]
pub struct Transfer {
    pub mint_type: MintType,
    pub amount: u64,
}

/// What a limit order asks for.
#[derive(Clone, Copy, Debug)]
pub struct LimitOrder {
    pub quantity: u64,
    pub price: u64,
    /// Post what is not filled.
    pub post: bool,
    /// Refuse an order that is not posted unless all of it is filled.
    pub fill: bool,
    /// When a posted order expires (0: never).
    pub expires: i64,
    /// Only say what would come of the order.
    pub preview: bool,
    /// Add a new settlement log first.
    pub rollover: bool,
}

/// What a market order asks for.
#[derive(Clone, Copy, Debug)]
pub struct MarketOrder {
    /// Fill up to a quantity of market tokens, else up to a net price.
    pub by_quantity: bool,
    pub quantity: u64,
    pub net_price: u64,
    /// Refuse the order unless all of it is filled.
    pub fill: bool,
    pub preview: bool,
    pub rollover: bool,
}

/// What an order comes to.
#[derive(Debug)]
pub struct TradeOutcome {
    pub result: TradeResult,
    /// Whether the result is to be kept in an account of its own.
    pub store_result: bool,
    /// From the user to the vault.
    pub deposit: Option<Transfer>,
    /// From the vault to the user.
    pub payout: Option<Transfer>,
    pub purse: Purse,
    /// The settlement log that was added.
    pub new_log: Option<SettleLog>,
}

impl Transfer {
    /// The transfer of tokens from a user, or, in a preview, a look at whether the user's account
    /// could give them.
    pub open spec fn planned(mint_type: MintType, amount: u64, preview: bool, from: TokenAccount) -> Result<
        Option<Transfer>,
        ErrorCode,
    > {
        if !preview {
            Ok(Some(Transfer { mint_type, amount }))
        } else {
            match mint_type {
                MintType::SPLToken => if from.frozen {
                    Err(ErrorCode::ExternalError)
                } else if from.amount < amount {
                    Err(ErrorCode::InsufficientTokens)
                } else {
                    Ok(None)
                },
                MintType::AtxSecurityToken => Err(ErrorCode::InvalidParameters),
            }
        }
    }
}

/// Plans the transfer of tokens from a user, or looks whether it could be made.
pub fn perform_transfer(mint_type: MintType, amount: u64, preview: bool, from: &TokenAccount) -> (r: Result<
    Option<Transfer>,
    ErrorCode,
>)
    ensures
        r == Transfer::planned(mint_type, amount, preview, *from),
{
    if !preview {
        return Ok(Some(Transfer { mint_type, amount }));
    }
    match mint_type {
        MintType::SPLToken => {
            if from.frozen {
                return Err(ErrorCode::ExternalError);
            }
            if from.amount < amount {
                return Err(ErrorCode::InsufficientTokens);
            }
            Ok(None)
        },
        MintType::AtxSecurityToken => Err(ErrorCode::InvalidParameters),
    }
}

/// Checks that an account is the one that is expected.
pub fn verify_matching_accounts(left: &Pubkey, right: &Pubkey) -> (r: Result<(), ErrorCode>)
    ensures
        r is Ok <==> *left == *right,
        r matches Err(e) ==> e == ErrorCode::InvalidAccount,
{
    if *left != *right {
        return Err(ErrorCode::InvalidAccount);
    }
    Ok(())
}

} // verus!
