//! What only the manager of a market may do.
use crate::context::{verify_matching_accounts, Purse, Transfer};
use crate::market::{ErrorCode, Market, MarketState, MintType, WithdrawEvent};
use crate::math::{minus, plus};
use crate::pubkey::Pubkey;
use vstd::prelude::*;

verus! {

pub const WITHDRAW_FEES_EVENT: u128 = 68727559793861179499689993618056023286;

/// The accounts that come with a transfer of lamports between the manager, who is the user of the
/// purse, and the market.
#[derive(Clone, Copy, Debug)]
pub struct ManagerTransferSol {
    pub market: Market,
    pub state_key: Pubkey,
    pub manager: Pubkey,
    pub purse: Purse,
}

/// The accounts that come with a withdrawal of fees.
#[derive(Clone, Copy, Debug)]
pub struct ManagerWithdrawFees {
    pub market_key: Pubkey,
    pub market: Market,
    pub state_key: Pubkey,
    pub agent: Pubkey,
    pub manager: Pubkey,
    pub manager_prc_token: Pubkey,
    pub prc_vault: Pubkey,
}

/// The accounts that come with a change of a market's terms.
#[derive(Clone, Copy, Debug)]
pub struct ManagerUpdateMarket {
    pub manager: Pubkey,
}

/// The terms of a market that its manager may change.
#[derive(Clone, Copy, Debug)]
pub struct MarketTerms {
    pub active: bool,
    pub expire_enable: bool,
    pub expire_min: i64,
    pub min_quantity: u64,
    pub taker_fee: u32,
    pub log_fee: u64,
    pub log_rebate: u64,
    pub log_reimburse: u64,
}

/// What a withdrawal of fees comes to.
#[derive(Clone, Copy, Debug)]
pub struct FeesOutcome {
    pub fee_tokens: u64,
    /// From the vault to the manager.
    pub payout: Option<Transfer>,
    pub event: Option<WithdrawEvent>,
}

/// The lamports after the manager takes them out of the deposit for logs, or adds to it.
pub open spec fn sol_transferred(state: MarketState, ctx: ManagerTransferSol, withdraw: bool, all: bool, amount: u64) -> Result<
    (MarketState, Purse),
    ErrorCode,
> {
    if ctx.market.manager != ctx.manager {
        Err(ErrorCode::AccessDenied)
    } else if ctx.market.state != ctx.state_key {
        Err(ErrorCode::InvalidAccount)
    } else if withdraw {
        crate::log_chain::reimbursed(
            state,
            ctx.purse,
            if all {
                state.log_deposit_balance
            } else {
                amount
            },
        )
    } else {
        match (crate::math::as_amount(state.log_deposit_balance + amount), ctx.purse.paid_in(amount)) {
            (Ok(log_deposit_balance), Ok(purse)) => Ok(
                (MarketState { log_deposit_balance, ..state }, purse),
            ),
            _ => Err(ErrorCode::Overflow),
        }
    }
}

/// Moves lamports between the manager and the market's deposit for settlement logs. A request that
/// is refused changes nothing.
pub fn manager_transfer_sol(
    state: &mut MarketState,
    ctx: &ManagerTransferSol,
    inp_withdraw: bool,
    inp_all: bool,
    inp_amount: u64,
) -> (r: Result<Purse, ErrorCode>)
    ensures
        match sol_transferred(*old(state), *ctx, inp_withdraw, inp_all, inp_amount) {
            Ok((after, purse)) => r == Ok::<Purse, ErrorCode>(purse) && *final(state) == after,
            Err(e) => r == Err::<Purse, ErrorCode>(e) && *final(state) == *old(state),
        },
{
    if ctx.market.manager != ctx.manager {
        return Err(ErrorCode::AccessDenied);
    }
    verify_matching_accounts(&ctx.market.state, &ctx.state_key)?;
    let log_deposit_balance: u64;
    let purse: Purse;
    if inp_withdraw {
        let withdraw_amount: u64 = if inp_all {
            state.log_deposit_balance
        } else {
            inp_amount
        };
        log_deposit_balance = minus(state.log_deposit_balance, withdraw_amount)?;
        purse = ctx.purse.pay_out(withdraw_amount)?;
    } else {
        purse = ctx.purse.pay_in(inp_amount)?;
        log_deposit_balance = plus(state.log_deposit_balance, inp_amount)?;
    }
    state.log_deposit_balance = log_deposit_balance;
    Ok(purse)
}

/// The fees that were taken go to the manager.
pub open spec fn fees_withdrawn(state: MarketState, ctx: ManagerWithdrawFees) -> Result<
    (MarketState, FeesOutcome),
    ErrorCode,
> {
    let fee_tokens = state.prc_fees_balance;
    if ctx.market.manager != ctx.manager {
        Err(ErrorCode::AccessDenied)
    } else if ctx.market.state != ctx.state_key || ctx.market.agent != ctx.agent || ctx.market.prc_vault
        != ctx.prc_vault {
        Err(ErrorCode::InvalidAccount)
    } else if fee_tokens == 0 {
        Ok((state, FeesOutcome { fee_tokens: 0, payout: None, event: None }))
    } else {
        match crate::order_rules::next_action(state) {
            Err(e) => Err(e),
            Ok(state) => match (
                crate::math::as_amount(state.prc_vault_balance - fee_tokens),
                MintType::spec_of(ctx.market.prc_mint_type),
            ) {
                (Err(e), _) => Err(e),
                (_, Err(e)) => Err(e),
                (Ok(prc_vault_balance), Ok(mint_type)) => Ok(
                    (
                        MarketState { prc_fees_balance: 0, prc_vault_balance, ..state },
                        FeesOutcome {
                            fee_tokens,
                            payout: Some(Transfer { mint_type, amount: fee_tokens }),
                            event: Some(
                                WithdrawEvent {
                                    event_type: WITHDRAW_FEES_EVENT,
                                    action_id: state.action_counter,
                                    market: ctx.market_key,
                                    owner: Pubkey::zero(),
                                    user: ctx.manager,
                                    market_account: Pubkey::zero(),
                                    pricing_account: ctx.manager_prc_token,
                                    manager: true,
                                    market_tokens: 0,
                                    pricing_tokens: fee_tokens,
                                },
                            ),
                        },
                    ),
                ),
            },
        }
    }
}

/// Pays the fees that were taken to the manager. A request that is refused changes nothing.
pub fn manager_withdraw_fees(state: &mut MarketState, ctx: &ManagerWithdrawFees) -> (r: Result<
    FeesOutcome,
    ErrorCode,
>)
    ensures
        match fees_withdrawn(*old(state), *ctx) {
            Ok((after, outcome)) => r == Ok::<FeesOutcome, ErrorCode>(outcome) && *final(state) == after,
            Err(e) => r == Err::<FeesOutcome, ErrorCode>(e) && *final(state) == *old(state),
        },
{
    if ctx.market.manager != ctx.manager {
        return Err(ErrorCode::AccessDenied);
    }
    verify_matching_accounts(&ctx.market.state, &ctx.state_key)?;
    verify_matching_accounts(&ctx.market.agent, &ctx.agent)?;
    verify_matching_accounts(&ctx.market.prc_vault, &ctx.prc_vault)?;
    let fee_tokens: u64 = state.prc_fees_balance;
    if fee_tokens == 0 {
        return Ok(FeesOutcome { fee_tokens, payout: None, event: None });
    }
    let action_counter: u64 = plus(state.action_counter, 1)?;
    let prc_vault_balance: u64 = minus(state.prc_vault_balance, fee_tokens)?;
    let mint_type: MintType = MintType::of(ctx.market.prc_mint_type)?;
    state.action_counter = action_counter;
    state.prc_vault_balance = prc_vault_balance;
    state.prc_fees_balance = 0;
    Ok(
        FeesOutcome {
            fee_tokens,
            payout: Some(Transfer { mint_type, amount: fee_tokens }),
            event: Some(
                WithdrawEvent {
                    event_type: WITHDRAW_FEES_EVENT,
                    action_id: action_counter,
                    market: ctx.market_key,
                    owner: Pubkey::default(),
                    user: ctx.manager,
                    market_account: Pubkey::default(),
                    pricing_account: ctx.manager_prc_token,
                    manager: true,
                    market_tokens: 0,
                    pricing_tokens: fee_tokens,
                },
            ),
        },
    )
}

/// The market after its manager has changed its terms.
pub open spec fn terms_changed(market: Market, ctx: ManagerUpdateMarket, terms: MarketTerms) -> Result<
    Market,
    ErrorCode,
> {
    if market.manager != ctx.manager {
        Err(ErrorCode::AccessDenied)
    } else {
        Ok(
            Market {
                active: terms.active,
                expire_enable: terms.expire_enable,
                expire_min: terms.expire_min,
                min_quantity: terms.min_quantity,
                taker_fee: terms.taker_fee,
                log_fee: terms.log_fee,
                log_rebate: terms.log_rebate,
                log_reimburse: terms.log_reimburse,
                ..market
            },
        )
    }
}

/// Changes the terms of a market.
pub fn manager_update_market(market: &mut Market, ctx: &ManagerUpdateMarket, terms: &MarketTerms) -> (r: Result<
    (),
    ErrorCode,
>)
    ensures
        match terms_changed(*old(market), *ctx, *terms) {
            Ok(m) => r is Ok && *final(market) == m,
            Err(e) => r == Err::<(), ErrorCode>(e) && *final(market) == *old(market),
        },
        r == if old(market).manager != ctx.manager {
            Err::<(), ErrorCode>(ErrorCode::AccessDenied)
        } else {
            Ok(())
        },
        *final(market) == if r is Err {
            *old(market)
        } else {
            Market {
                active: terms.active,
                expire_enable: terms.expire_enable,
                expire_min: terms.expire_min,
                min_quantity: terms.min_quantity,
                taker_fee: terms.taker_fee,
                log_fee: terms.log_fee,
                log_rebate: terms.log_rebate,
                log_reimburse: terms.log_reimburse,
                ..*old(market)
            }
        },
{
    if market.manager != ctx.manager {
        return Err(ErrorCode::AccessDenied);
    }
    market.active = terms.active;
    market.expire_enable = terms.expire_enable;
    market.expire_min = terms.expire_min;
    market.min_quantity = terms.min_quantity;
    market.taker_fee = terms.taker_fee;
    market.log_fee = terms.log_fee;
    market.log_rebate = terms.log_rebate;
    market.log_reimburse = terms.log_reimburse;
    Ok(())
}

} // verus!
