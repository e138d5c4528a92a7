//! What leaves a settlement log, a user's vault or the market, told in numbers: who gets how much,
//! and what the totals fall by.
use crate::context::Purse;
use crate::log_chain::{ExtendLog, Extended};
use crate::manager::{FeesOutcome, ManagerTransferSol, ManagerUpdateMarket, ManagerWithdrawFees, MarketTerms};
use crate::market::{ErrorCode, Market, MarketState, UserVault, WithdrawEvent};
use crate::pubkey::Pubkey;
use crate::settlement::LogView;
use crate::vault::{CloseVault, CreateVault, Emptied, ManagerVaultWithdraw, Stored, VaultDeposit, VaultWithdraw};
use crate::withdraw::{LogNeighbours, ManagerWithdraw, Taking, Withdraw, Withdrawn};
use vstd::prelude::*;

verus! {

/// Whether one account has left a log, and nothing else has changed there.
pub open spec fn leaves_log(log: LogView, after: LogView, id: u128) -> bool {
    &&& log.entries.contains_key(id)
    &&& after.entries == log.entries.remove(id)
    &&& after.key == log.key
    &&& after.slots == log.slots
    &&& after.header.market == log.header.market
    &&& after.header.prev == log.header.prev
    &&& after.header.next == log.header.next
    &&& after.header.items == log.header.items - 1
}

/// Whether a log has left the chain with its last account, if it stood between two others: these are
/// linked with one another then, the log's lamports are taken, and if the log was the active or the
/// next one, those that follow it take its place. Else nothing changes.
pub open spec fn leaves_chain(
    log: LogView,
    around: LogNeighbours,
    beyond: LogNeighbours,
    state: MarketState,
    after: MarketState,
) -> bool {
    let leaving = log.header.items == 1 && log.header.prev != Pubkey::zero() && log.header.next
        != Pubkey::zero();
    &&& !leaving ==> beyond == around && after.settle_a == state.settle_a && after.settle_b
        == state.settle_b
    &&& leaving ==> {
        &&& around.prev.key == log.header.prev
        &&& around.next.key == log.header.next
        &&& around.prev.header.next == log.key
        &&& around.next.header.prev == log.key
        &&& beyond.lamports == 0
        &&& beyond.prev.key == around.prev.key
        &&& beyond.next.key == around.next.key
        &&& beyond.prev.header.next == around.next.key
        &&& beyond.next.header.prev == around.prev.key
        &&& beyond.prev.header.prev == around.prev.header.prev
        &&& beyond.next.header.next == around.next.header.next
        &&& beyond.prev.header.items == around.prev.header.items
        &&& beyond.next.header.items == around.next.header.items
        &&& beyond.prev.header.market == around.prev.header.market
        &&& beyond.next.header.market == around.next.header.market
        &&& state.settle_a == log.key ==> after.settle_a == around.next.key && after.settle_b
            == around.next.header.next
        &&& state.settle_a != log.key ==> after.settle_a == state.settle_a && after.settle_b
            == if state.settle_b == log.key {
            around.next.key
        } else {
            state.settle_b
        }
    }
}

/// The lamports that a log gives when it leaves the chain.
pub open spec fn lamports_of(log: LogView, around: LogNeighbours) -> int {
    if log.header.items == 1 && log.header.prev != Pubkey::zero() && log.header.next != Pubkey::zero() {
        around.lamports as int
    } else {
        0
    }
}

/// Whether the totals of the logs and the vaults have fallen by so many tokens, and nothing else has
/// changed in the state but the count of actions, the active logs and the deposit for logs.
pub open spec fn pays_from_logs(state: MarketState, after: MarketState, mkt: u64, prc: u64, deposit: int) -> bool {
    &&& after.mkt_log_balance == state.mkt_log_balance - mkt
    &&& after.mkt_vault_balance == state.mkt_vault_balance - mkt
    &&& after.prc_log_balance == state.prc_log_balance - prc
    &&& after.prc_vault_balance == state.prc_vault_balance - prc
    &&& after.action_counter == state.action_counter + 1
    &&& after.log_deposit_balance == state.log_deposit_balance + deposit
    &&& after == (MarketState {
        mkt_log_balance: after.mkt_log_balance,
        mkt_vault_balance: after.mkt_vault_balance,
        prc_log_balance: after.prc_log_balance,
        prc_vault_balance: after.prc_vault_balance,
        action_counter: after.action_counter,
        log_deposit_balance: after.log_deposit_balance,
        settle_a: after.settle_a,
        settle_b: after.settle_b,
        ..state
    })
}

/// Whether an event is the report of a withdrawal.
pub open spec fn is_withdrawal(event: WithdrawEvent, action: int, market: Pubkey, owner: Pubkey, user: Pubkey, manager: bool, mkt: u64, prc: u64) -> bool {
    &&& event.action_id == action
    &&& event.market == market
    &&& event.owner == owner
    &&& event.user == user
    &&& event.manager == manager
    &&& event.market_tokens == mkt
    &&& event.pricing_tokens == prc
}

/// Whether a withdrawal has paid out all that the account of an owner held in a log, closed the
/// account, and given the user so many lamports back.
pub open spec fn pays_account(
    state: MarketState,
    log: LogView,
    around: LogNeighbours,
    market: Market,
    market_key: Pubkey,
    owner: Pubkey,
    user: Pubkey,
    manager: bool,
    rebate: u64,
    purse: Purse,
    w: Withdrawn,
) -> bool {
    let entry = log.entries[crate::trades::account_of(owner)].value;
    let mkt = entry.mkt_token_balance;
    let prc = entry.prc_token_balance;
    let o = w.outcome;
    &&& leaves_log(log, w.log, crate::trades::account_of(owner))
    &&& log.header.market == market_key
    &&& leaves_chain(log, around, w.around, state, w.state)
    &&& pays_from_logs(state, w.state, mkt, prc, lamports_of(log, around) - rebate)
    &&& o.result.mkt_tokens == mkt
    &&& o.result.prc_tokens == prc
    &&& crate::outcomes::is_transfer(o.mkt_payout, market.mkt_mint_type, mkt as int, mkt == 0)
    &&& crate::outcomes::is_transfer(o.prc_payout, market.prc_mint_type, prc as int, prc == 0)
    &&& o.purse.user_lamports == purse.user_lamports + rebate
    &&& o.purse.state_lamports == purse.state_lamports - rebate + lamports_of(log, around)
    &&& is_withdrawal(
        o.event,
        state.action_counter + 1,
        market_key,
        owner,
        user,
        manager,
        mkt,
        prc,
    )
}

#[verifier::rlimit(40)]
proof fn lemma_taking(t: Taking, state: MarketState, log: LogView, around: LogNeighbours)
    ensures
        t.done(state, log, around) matches Ok(w) ==> {
            &&& t.market.state == t.state_key
            &&& t.market.agent == t.agent
            &&& t.market.mkt_vault == t.mkt_vault
            &&& t.market.prc_vault == t.prc_vault
            &&& pays_account(
                state,
                log,
                around,
                t.market,
                t.market_key,
                t.owner,
                t.user,
                t.manager,
                t.rebate,
                t.purse,
                w,
            )
            &&& w.outcome.store_result == (t.result != t.user)
            &&& w.outcome.event.market_account == t.user_mkt_token
            &&& w.outcome.event.pricing_account == t.user_prc_token
        },
{
}

/// A withdrawal pays the owner all tokens that the account in the log holds, closes the account,
/// gives the rebate for log space, and takes the tokens off the totals.
#[verifier::rlimit(60)]
pub proof fn law_withdraw(state: MarketState, log: LogView, around: LogNeighbours, ctx: Withdraw)
    ensures
        crate::withdraw::withdrawn(state, log, around, ctx) matches Ok(w) ==> {
            &&& ctx.market.state == ctx.state_key
            &&& ctx.market.agent == ctx.agent
            &&& ctx.market.mkt_vault == ctx.mkt_vault
            &&& ctx.market.prc_vault == ctx.prc_vault
            &&& pays_account(
                state,
                log,
                around,
                ctx.market,
                ctx.market_key,
                ctx.owner,
                ctx.owner,
                false,
                ctx.market.log_rebate,
                ctx.purse,
                w,
            )
            &&& w.outcome.store_result == (ctx.result != ctx.owner)
            &&& w.outcome.event.market_account == ctx.user_mkt_token
            &&& w.outcome.event.pricing_account == ctx.user_prc_token
        },
{
    lemma_taking(ctx.spec_taking(), state, log, around);
}

/// A withdrawal by the manager, where the market allows it, pays the owner all tokens that the
/// account in the log holds, closes the account and takes the tokens off the totals; there is no
/// rebate.
#[verifier::rlimit(60)]
pub proof fn law_manager_withdraw(state: MarketState, log: LogView, around: LogNeighbours, ctx: ManagerWithdraw)
    ensures
        crate::withdraw::manager_withdrawn(state, log, around, ctx) matches Ok(w) ==> {
            &&& ctx.market.manager_withdraw
            &&& ctx.market.manager == ctx.manager
            &&& ctx.market.state == ctx.state_key
            &&& ctx.market.agent == ctx.agent
            &&& ctx.market.mkt_vault == ctx.mkt_vault
            &&& ctx.market.prc_vault == ctx.prc_vault
            &&& pays_account(
                state,
                log,
                around,
                ctx.market,
                ctx.market_key,
                ctx.owner,
                ctx.manager,
                true,
                0,
                ctx.purse,
                w,
            )
            &&& w.outcome.store_result == (ctx.result != ctx.manager)
            &&& w.outcome.event.market_account == ctx.user_mkt_token
            &&& w.outcome.event.pricing_account == ctx.user_prc_token
        },
        !ctx.market.manager_withdraw || ctx.market.manager != ctx.manager
            ==> crate::withdraw::manager_withdrawn(state, log, around, ctx) == Err::<
            Withdrawn,
            ErrorCode,
        >(ErrorCode::AccessDenied),
{
    lemma_taking(ctx.spec_taking(), state, log, around);
}

/// Whether the accounts of a withdrawal are those of the market.
pub open spec fn withdraw_accounts_fit(ctx: Withdraw) -> bool {
    &&& ctx.market.state == ctx.state_key
    &&& ctx.market.agent == ctx.agent
    &&& ctx.market.mkt_vault == ctx.mkt_vault
    &&& ctx.market.prc_vault == ctx.prc_vault
}

/// A withdrawal from a log that does not leave the chain goes through exactly where the accounts
/// are right, the log has an account of the owner, the totals cover what it holds, the token
/// programs are known and there are lamports for the rebate.
#[verifier::rlimit(60)]
pub proof fn law_withdraw_goes_through(state: MarketState, log: LogView, around: LogNeighbours, ctx: Withdraw)
    requires
        state.action_counter < u64::MAX,
        log.header.items != 1 || log.header.prev == Pubkey::zero() || log.header.next == Pubkey::zero(),
    ensures
        ({
            let result = crate::withdraw::withdrawn(state, log, around, ctx);
            let id = crate::trades::account_of(ctx.owner);
            let entry = log.entries[id].value;
            let mkt = entry.mkt_token_balance;
            let prc = entry.prc_token_balance;
            let rebate = ctx.market.log_rebate;
            &&& !withdraw_accounts_fit(ctx) || log.header.market != ctx.market_key ==> result == Err::<
                Withdrawn,
                ErrorCode,
            >(ErrorCode::InvalidAccount)
            &&& withdraw_accounts_fit(ctx) && log.header.market == ctx.market_key
                && !log.entries.contains_key(id) ==> result == Err::<Withdrawn, ErrorCode>(
                ErrorCode::AccountNotFound,
            )
            &&& result is Ok <==> {
                &&& withdraw_accounts_fit(ctx)
                &&& log.header.market == ctx.market_key
                &&& log.entries.contains_key(id)
                &&& log.header.items > 0
                &&& mkt > 0 ==> ctx.market.mkt_mint_type <= 1 && mkt <= state.mkt_log_balance && mkt
                    <= state.mkt_vault_balance
                &&& prc > 0 ==> ctx.market.prc_mint_type <= 1 && prc <= state.prc_log_balance && prc
                    <= state.prc_vault_balance
                &&& rebate <= state.log_deposit_balance
                &&& rebate <= ctx.purse.state_lamports
                &&& ctx.purse.user_lamports + rebate <= u64::MAX
            }
        }),
{
}

/// A deposit to a user's vault moves all tokens of the owner's account in the log to the vault, and
/// closes the account; only the manager can do so. The tokens stay with the market.
#[verifier::rlimit(80)]
pub proof fn law_vault_deposit(state: MarketState, vault: UserVault, log: LogView, around: LogNeighbours, ctx: VaultDeposit)
    ensures
        ctx.done(state, vault, log, around) matches Ok(s) ==> {
            let entry = log.entries[crate::trades::account_of(ctx.owner)].value;
            let mkt = entry.mkt_token_balance;
            let prc = entry.prc_token_balance;
            let some = mkt > 0 || prc > 0;
            &&& ctx.market.manager == ctx.manager
            &&& ctx.market.state == ctx.state_key
            &&& log.header.market == ctx.market_key
            &&& leaves_log(log, s.log, crate::trades::account_of(ctx.owner))
            &&& leaves_chain(log, around, s.around, state, s.state)
            &&& s.vault.mkt_tokens == vault.mkt_tokens + mkt
            &&& s.vault.prc_tokens == vault.prc_tokens + prc
            &&& s.vault.owner == vault.owner
            &&& s.vault.market == vault.market
            &&& s.vault.initialized == vault.initialized
            &&& s.state.mkt_log_balance == state.mkt_log_balance - mkt
            &&& s.state.mkt_user_vault_balance == state.mkt_user_vault_balance + mkt
            &&& s.state.prc_log_balance == state.prc_log_balance - prc
            &&& s.state.prc_user_vault_balance == state.prc_user_vault_balance + prc
            &&& s.state.log_deposit_balance == state.log_deposit_balance + lamports_of(log, around)
            &&& s.state.action_counter == state.action_counter + if some {
                1int
            } else {
                0
            }
            &&& s.state == (MarketState {
                mkt_log_balance: s.state.mkt_log_balance,
                mkt_user_vault_balance: s.state.mkt_user_vault_balance,
                prc_log_balance: s.state.prc_log_balance,
                prc_user_vault_balance: s.state.prc_user_vault_balance,
                log_deposit_balance: s.state.log_deposit_balance,
                action_counter: s.state.action_counter,
                settle_a: s.state.settle_a,
                settle_b: s.state.settle_b,
                ..state
            })
            &&& s.outcome.state_lamports == ctx.state_lamports + lamports_of(log, around)
            &&& s.outcome.event is Some <==> some
            &&& s.outcome.event matches Some(event) ==> {
                &&& event.action_id == state.action_counter + 1
                &&& event.market == ctx.market_key
                &&& event.owner == ctx.owner
                &&& event.vault == ctx.vault_key
                &&& event.market_tokens == mkt
                &&& event.market_balance == vault.mkt_tokens + mkt
                &&& event.pricing_tokens == prc
                &&& event.pricing_balance == vault.prc_tokens + prc
            }
        },
        ctx.market.manager != ctx.manager ==> ctx.done(state, vault, log, around) == Err::<
            Stored,
            ErrorCode,
        >(ErrorCode::AccessDenied),
        ctx.market.manager == ctx.manager && ctx.market.state == ctx.state_key && log.header.market
            == ctx.market_key && !log.entries.contains_key(crate::trades::account_of(ctx.owner)) ==> ctx.done(
            state,
            vault,
            log,
            around,
        ) == Err::<Stored, ErrorCode>(ErrorCode::AccountNotFound),
{
}

/// Whether a user's vault is emptied: all its tokens leave the vaults of the market for the owner,
/// and its lamports go to the state account and the deposit for logs. Nothing happens to an empty
/// vault.
pub open spec fn empties(
    state: MarketState,
    vault: UserVault,
    ctx: VaultWithdraw,
    user: Pubkey,
    manager: bool,
    e: Emptied,
) -> bool {
    let mkt = vault.mkt_tokens;
    let prc = vault.prc_tokens;
    let o = e.outcome;
    let some = mkt > 0 || prc > 0;
    &&& ctx.market.state == ctx.state_key
    &&& ctx.market.agent == ctx.agent
    &&& ctx.market.mkt_vault == ctx.mkt_vault
    &&& ctx.market.prc_vault == ctx.prc_vault
    &&& e.vault.mkt_tokens == 0
    &&& e.vault.prc_tokens == 0
    &&& e.vault.owner == vault.owner
    &&& e.vault.market == vault.market
    &&& e.vault.initialized == vault.initialized
    &&& crate::outcomes::is_transfer(o.mkt_payout, ctx.market.mkt_mint_type, mkt as int, mkt == 0)
    &&& crate::outcomes::is_transfer(o.prc_payout, ctx.market.prc_mint_type, prc as int, prc == 0)
    &&& !some ==> {
        &&& e.state == state
        &&& o.vault_lamports == ctx.vault_lamports
        &&& o.state_lamports == ctx.state_lamports
        &&& o.event is None
    }
    &&& some ==> {
        &&& e.state.mkt_vault_balance == state.mkt_vault_balance - mkt
        &&& e.state.mkt_user_vault_balance == state.mkt_user_vault_balance - mkt
        &&& e.state.prc_vault_balance == state.prc_vault_balance - prc
        &&& e.state.prc_user_vault_balance == state.prc_user_vault_balance - prc
        &&& e.state.log_deposit_balance == state.log_deposit_balance + ctx.vault_lamports
        &&& e.state.action_counter == state.action_counter + 1
        &&& e.state == (MarketState {
            mkt_vault_balance: e.state.mkt_vault_balance,
            mkt_user_vault_balance: e.state.mkt_user_vault_balance,
            prc_vault_balance: e.state.prc_vault_balance,
            prc_user_vault_balance: e.state.prc_user_vault_balance,
            log_deposit_balance: e.state.log_deposit_balance,
            action_counter: e.state.action_counter,
            ..state
        })
        &&& o.vault_lamports == 0
        &&& o.state_lamports == ctx.state_lamports + ctx.vault_lamports
        &&& o.event matches Some(event) && {
            &&& event.action_id == state.action_counter + 1
            &&& event.market == ctx.market_key
            &&& event.owner == ctx.owner
            &&& event.user == user
            &&& event.vault == ctx.vault_key
            &&& event.market_account == ctx.user_mkt_token
            &&& event.pricing_account == ctx.user_prc_token
            &&& event.manager == manager
            &&& event.market_tokens == mkt
            &&& event.pricing_tokens == prc
        }
    }
}

/// Only the owner of a user's vault can withdraw from it, or the manager where the market allows it;
/// a withdrawal empties the vault.
#[verifier::rlimit(60)]
pub proof fn law_vault_withdraw(state: MarketState, vault: UserVault, ctx: VaultWithdraw, by: ManagerVaultWithdraw)
    ensures
        crate::vault::vault_withdrawn(state, vault, ctx) matches Ok(e) ==> vault.owner == ctx.owner
            && empties(state, vault, ctx, ctx.owner, false, e),
        vault.owner != ctx.owner ==> crate::vault::vault_withdrawn(state, vault, ctx) == Err::<
            Emptied,
            ErrorCode,
        >(ErrorCode::AccessDenied),
        crate::vault::manager_vault_withdrawn(state, vault, by) matches Ok(e)
            ==> by.accounts.market.manager_withdraw && by.accounts.market.manager == by.manager && empties(
            state,
            vault,
            by.accounts,
            by.manager,
            true,
            e,
        ),
        !by.accounts.market.manager_withdraw || by.accounts.market.manager != by.manager
            ==> crate::vault::manager_vault_withdrawn(state, vault, by) == Err::<Emptied, ErrorCode>(
            ErrorCode::AccessDenied,
        ),
{
}

/// A withdrawal of fees pays the manager all commission that was taken, which leaves the vault and
/// is none afterwards; nothing else changes. Only the manager can do so.
#[verifier::rlimit(30)]
pub proof fn law_withdraw_fees(state: MarketState, ctx: ManagerWithdrawFees)
    ensures
        crate::manager::fees_withdrawn(state, ctx) matches Ok((after, o)) ==> {
            let fees = state.prc_fees_balance;
            &&& ctx.market.manager == ctx.manager
            &&& ctx.market.state == ctx.state_key
            &&& ctx.market.agent == ctx.agent
            &&& ctx.market.prc_vault == ctx.prc_vault
            &&& o.fee_tokens == fees
            &&& crate::outcomes::is_transfer(o.payout, ctx.market.prc_mint_type, fees as int, fees == 0)
            &&& after.prc_fees_balance == 0
            &&& after.prc_vault_balance == state.prc_vault_balance - fees
            &&& after.action_counter == state.action_counter + if fees > 0 {
                1int
            } else {
                0
            }
            &&& after == (MarketState {
                prc_fees_balance: 0,
                prc_vault_balance: after.prc_vault_balance,
                action_counter: after.action_counter,
                ..state
            })
            &&& o.event is Some <==> fees > 0
            &&& o.event matches Some(event) ==> is_withdrawal(
                event,
                state.action_counter + 1,
                ctx.market_key,
                Pubkey::zero(),
                ctx.manager,
                true,
                0,
                fees,
            ) && event.pricing_account == ctx.manager_prc_token && event.market_account
                == Pubkey::zero()
        },
        ctx.market.manager != ctx.manager ==> crate::manager::fees_withdrawn(state, ctx) == Err::<
            (MarketState, FeesOutcome),
            ErrorCode,
        >(ErrorCode::AccessDenied),
        crate::manager::fees_withdrawn(state, ctx) is Ok <==> {
            &&& ctx.market.manager == ctx.manager
            &&& ctx.market.state == ctx.state_key
            &&& ctx.market.agent == ctx.agent
            &&& ctx.market.prc_vault == ctx.prc_vault
            &&& state.prc_fees_balance > 0 ==> {
                &&& state.action_counter < u64::MAX
                &&& state.prc_fees_balance <= state.prc_vault_balance
                &&& ctx.market.prc_mint_type <= 1
            }
        },
{
}

/// The manager, and no one else, can take lamports out of the deposit for logs or add to it: what the
/// manager gets or gives is what the state account and the deposit lose or gain.
pub proof fn law_transfer_sol(state: MarketState, ctx: ManagerTransferSol, withdraw: bool, all: bool, amount: u64)
    ensures
        crate::manager::sol_transferred(state, ctx, withdraw, all, amount) matches Ok((after, purse)) ==> {
            let given = if !withdraw {
                amount as int
            } else if all {
                -(state.log_deposit_balance as int)
            } else {
                -(amount as int)
            };
            &&& ctx.market.manager == ctx.manager
            &&& ctx.market.state == ctx.state_key
            &&& after.log_deposit_balance == state.log_deposit_balance + given
            &&& after == (MarketState { log_deposit_balance: after.log_deposit_balance, ..state })
            &&& purse.user_lamports == ctx.purse.user_lamports - given
            &&& purse.state_lamports == ctx.purse.state_lamports + given
        },
        ctx.market.manager != ctx.manager ==> crate::manager::sol_transferred(
            state,
            ctx,
            withdraw,
            all,
            amount,
        ) == Err::<(MarketState, Purse), ErrorCode>(ErrorCode::AccessDenied),
        ctx.market.manager == ctx.manager && ctx.market.state == ctx.state_key ==> {
            let taken = if all {
                state.log_deposit_balance
            } else {
                amount
            };
            crate::manager::sol_transferred(state, ctx, withdraw, all, amount) is Ok <==> if withdraw {
                taken <= state.log_deposit_balance && taken <= ctx.purse.state_lamports
                    && ctx.purse.user_lamports + taken <= u64::MAX
            } else {
                amount <= ctx.purse.user_lamports && ctx.purse.state_lamports + amount <= u64::MAX
                    && state.log_deposit_balance + amount <= u64::MAX
            }
        },
{
}

/// A log that a user brings is added only where the market asks for one. It is then the next log,
/// behind the one that was next, which is now the active one; the user is paid back for it.
#[verifier::rlimit(30)]
pub proof fn law_extend_log(state: MarketState, log_b: LogView, ctx: ExtendLog, new_log: (Pubkey, nat))
    ensures
        ({
            let result = crate::log_chain::extended(state, log_b, ctx, new_log);
            let back = ctx.market.log_reimburse;
            &&& ctx.market.state != ctx.state_key ==> result == Err::<Extended, ErrorCode>(
                ErrorCode::InvalidAccount,
            )
            &&& ctx.market.state == ctx.state_key && (state.settle_b != log_b.key || !state.log_rollover)
                ==> result == Err::<Extended, ErrorCode>(ErrorCode::RetrySettlementAccount)
            &&& ctx.market.state == ctx.state_key && state.settle_b == log_b.key && state.log_rollover
                ==> (result is Ok <==> back <= state.log_deposit_balance && back
                <= ctx.purse.state_lamports && ctx.purse.user_lamports + back <= u64::MAX)
            &&& result matches Ok(e) ==> {
                &&& e.state == (MarketState {
                    settle_a: log_b.key,
                    settle_b: new_log.0,
                    log_rollover: false,
                    log_deposit_balance: (state.log_deposit_balance - back) as u64,
                    ..state
                })
                &&& e.purse.user_lamports == ctx.purse.user_lamports + back
                &&& e.purse.state_lamports == ctx.purse.state_lamports - back
                &&& e.log_b.key == log_b.key
                &&& e.log_b.entries == log_b.entries
                &&& e.log_b.slots == log_b.slots
                &&& e.log_b.header.next == new_log.0
                &&& e.log_b.header.prev == log_b.header.prev
                &&& e.log_b.header.market == log_b.header.market
                &&& e.log_b.header.items == log_b.header.items
                &&& e.new_log.key == new_log.0
                &&& e.new_log.slots == new_log.1
                &&& e.new_log.header.prev == log_b.key
                &&& e.new_log.header.next == Pubkey::zero()
                &&& e.new_log.header.market == ctx.market_key
                &&& e.new_log.header.items == 0
                &&& forall|id: u128| !(#[trigger] e.new_log.entries.contains_key(id))
            }
        }),
{
}

/// Only the manager sets up and closes users' vaults. One is set up once, empty and for its owner;
/// what is there stays when that is asked for again, and only an empty one can be closed.
pub proof fn law_vaults(vault: UserVault, open: CreateVault, again: CreateVault, close: CloseVault)
    ensures
        open.market.manager != open.manager ==> crate::vault::set_up(vault, open) == Err::<
            UserVault,
            ErrorCode,
        >(ErrorCode::AccessDenied),
        open.market.manager == open.manager ==> crate::vault::set_up(vault, open) is Ok,
        crate::vault::set_up(vault, open) matches Ok(v) ==> {
            &&& v.initialized
            &&& vault.initialized ==> v == vault
            &&& !vault.initialized ==> v.owner == open.owner && v.market == open.market_key
                && v.mkt_tokens == 0 && v.prc_tokens == 0
            &&& crate::vault::set_up(v, again) matches Ok(w) ==> w == v
        },
        close.market.manager != close.manager ==> crate::vault::close_error(vault, close) == Some(
            ErrorCode::AccessDenied,
        ),
        close.market.manager == close.manager ==> (crate::vault::close_error(vault, close) is None <==> (
        vault.mkt_tokens == 0 && vault.prc_tokens == 0)),
        close.market.manager == close.manager && (vault.mkt_tokens > 0 || vault.prc_tokens > 0)
            ==> crate::vault::close_error(vault, close) == Some(ErrorCode::VaultNotEmpty),
{
}

/// Only the manager changes the terms of a market: whether it is active, when orders expire, the
/// least quantity, the commission and the lamports for logs. All else stays, above all whether the
/// manager may withdraw or cancel.
pub proof fn law_update_market(market: Market, ctx: ManagerUpdateMarket, terms: MarketTerms)
    ensures
        ({
            let result = crate::manager::terms_changed(market, ctx, terms);
            &&& market.manager != ctx.manager ==> result == Err::<Market, ErrorCode>(
                ErrorCode::AccessDenied,
            )
            &&& market.manager == ctx.manager ==> result is Ok
            &&& result matches Ok(m) ==> {
                &&& m.active == terms.active
                &&& m.expire_enable == terms.expire_enable
                &&& m.expire_min == terms.expire_min
                &&& m.min_quantity == terms.min_quantity
                &&& m.taker_fee == terms.taker_fee
                &&& m.log_fee == terms.log_fee
                &&& m.log_rebate == terms.log_rebate
                &&& m.log_reimburse == terms.log_reimburse
                &&& m == (Market {
                    active: m.active,
                    expire_enable: m.expire_enable,
                    expire_min: m.expire_min,
                    min_quantity: m.min_quantity,
                    taker_fee: m.taker_fee,
                    log_fee: m.log_fee,
                    log_rebate: m.log_rebate,
                    log_reimburse: m.log_reimburse,
                    ..market
                })
            }
        }),
{
}

/// A withdrawal by the manager goes through exactly where one by the owner, with the same accounts
/// and no rebate to pay, would.
pub proof fn law_manager_withdraw_goes_through(state: MarketState, log: LogView, around: LogNeighbours, by: ManagerWithdraw, own: Withdraw)
    requires
        by.market.manager_withdraw,
        by.market.manager == by.manager,
        own.market_key == by.market_key,
        own.market == (Market { log_rebate: 0, ..by.market }),
        own.state_key == by.state_key,
        own.agent == by.agent,
        own.owner == by.owner,
        own.mkt_vault == by.mkt_vault,
        own.prc_vault == by.prc_vault,
        own.purse == by.purse,
    ensures
        match (
            crate::withdraw::manager_withdrawn(state, log, around, by),
            crate::withdraw::withdrawn(state, log, around, own),
        ) {
            (Ok(a), Ok(b)) => a.state == b.state && a.log == b.log && a.around == b.around
                && a.outcome.result == b.outcome.result && a.outcome.mkt_payout == b.outcome.mkt_payout
                && a.outcome.prc_payout == b.outcome.prc_payout && a.outcome.purse == b.outcome.purse,
            (Err(a), Err(b)) => a == b,
            _ => false,
        },
{
}

/// A deposit to a user's vault from a log that does not leave the chain goes through exactly where
/// the manager asks for it, the accounts are right, the log has an account of the owner, and the
/// totals and the vault can take its tokens.
pub proof fn law_vault_deposit_goes_through(state: MarketState, vault: UserVault, log: LogView, around: LogNeighbours, ctx: VaultDeposit)
    requires
        state.action_counter < u64::MAX,
        log.header.items != 1 || log.header.prev == Pubkey::zero() || log.header.next == Pubkey::zero(),
    ensures
        ctx.done(state, vault, log, around) is Ok <==> {
            let id = crate::trades::account_of(ctx.owner);
            let entry = log.entries[id].value;
            let mkt = entry.mkt_token_balance;
            let prc = entry.prc_token_balance;
            &&& ctx.market.manager == ctx.manager
            &&& ctx.market.state == ctx.state_key
            &&& log.header.market == ctx.market_key
            &&& log.entries.contains_key(id)
            &&& log.header.items > 0
            &&& mkt <= state.mkt_log_balance
            &&& prc <= state.prc_log_balance
            &&& state.mkt_user_vault_balance + mkt <= u64::MAX
            &&& state.prc_user_vault_balance + prc <= u64::MAX
            &&& vault.mkt_tokens + mkt <= u64::MAX
            &&& vault.prc_tokens + prc <= u64::MAX
        },
{
}

/// A withdrawal from a user's vault goes through exactly where the owner asks for it, the accounts
/// are right, the token programs are known and the totals cover what the vault holds.
pub proof fn law_vault_withdraw_goes_through(state: MarketState, vault: UserVault, ctx: VaultWithdraw)
    requires
        state.action_counter < u64::MAX,
    ensures
        crate::vault::vault_withdrawn(state, vault, ctx) is Ok <==> {
            let mkt = vault.mkt_tokens;
            let prc = vault.prc_tokens;
            &&& vault.owner == ctx.owner
            &&& ctx.market.state == ctx.state_key
            &&& ctx.market.agent == ctx.agent
            &&& ctx.market.mkt_vault == ctx.mkt_vault
            &&& ctx.market.prc_vault == ctx.prc_vault
            &&& mkt > 0 ==> ctx.market.mkt_mint_type <= 1 && mkt <= state.mkt_vault_balance && mkt
                <= state.mkt_user_vault_balance
            &&& prc > 0 ==> ctx.market.prc_mint_type <= 1 && prc <= state.prc_vault_balance && prc
                <= state.prc_user_vault_balance
            &&& mkt > 0 || prc > 0 ==> ctx.state_lamports + ctx.vault_lamports <= u64::MAX
                && state.log_deposit_balance + ctx.vault_lamports <= u64::MAX
        },
{
}

} // verus!
