//! Withdrawing the tokens that wait in a settlement log.
use crate::context::{verify_matching_accounts, Purse, Transfer};
use crate::log_chain::{log_close, log_reimburse, LogLink};
use crate::market::{ErrorCode, Market, MarketState, MintType, WithdrawEvent, WithdrawResult};
use crate::math::{minus, plus};
use crate::pubkey::Pubkey;
use crate::records::{AccountEntry, AccountsHeader};
use crate::settlement::{owner_key, LogView, SettleLog};
use vstd::prelude::*;

verus! {

pub const WITHDRAW_EVENT: u128 = 206836899720010235937021599972903459637;

pub const MANAGER_WITHDRAW_EVENT: u128 = 246174444212986798995680456134066592430;

/// The neighbours of a settlement log in the chain, and the lamports of the log itself.
#[derive(Clone, Copy, Debug)]
pub struct LogNeighbours {
    pub lamports: u64,
    pub prev: LogLink,
    pub next: LogLink,
}

/// The accounts that come with a withdrawal by the owner of the tokens.
#[derive(Clone, Copy, Debug)]
pub struct Withdraw {
    pub market_key: Pubkey,
    pub market: Market,
    pub state_key: Pubkey,
    pub agent: Pubkey,
    pub owner: Pubkey,
    pub user_mkt_token: Pubkey,
    pub user_prc_token: Pubkey,
    pub mkt_vault: Pubkey,
    pub prc_vault: Pubkey,
    pub result: Pubkey,
    pub purse: Purse,
}

/// The accounts that come with a withdrawal by the manager.
#[derive(Clone, Copy, Debug)]
pub struct ManagerWithdraw {
    pub market_key: Pubkey,
    pub market: Market,
    pub state_key: Pubkey,
    pub agent: Pubkey,
    pub manager: Pubkey,
    pub owner: Pubkey,
    pub user_mkt_token: Pubkey,
    pub user_prc_token: Pubkey,
    pub mkt_vault: Pubkey,
    pub prc_vault: Pubkey,
    pub result: Pubkey,
    pub purse: Purse,
}

/// What a withdrawal comes to.
#[derive(Clone, Copy, Debug)]
pub struct WithdrawOutcome {
    pub result: WithdrawResult,
    pub store_result: bool,
    /// From the vaults to the owner.
    pub mkt_payout: Option<Transfer>,
    pub prc_payout: Option<Transfer>,
    pub purse: Purse,
    pub event: WithdrawEvent,
}

/// A withdrawal that went through.
#[verifier::ext_equal]
pub struct Withdrawn {
    pub state: MarketState,
    pub log: LogView,
    pub around: LogNeighbours,
    pub outcome: WithdrawOutcome,
}

/// Whether the log is left by its last account, and stands between two others.
pub open spec fn leaves_chain(header: AccountsHeader) -> bool {
    header.items == 1 && header.prev != Pubkey::zero() && header.next != Pubkey::zero()
}

/// Whether a log leaves the chain when an account in it is closed.
pub fn is_leaving(header: &AccountsHeader) -> (r: bool)
    ensures
        r == leaves_chain(*header),
{
    let none: Pubkey = Pubkey::default();
    header.items == 1 && header.prev != none && header.next != none
}

/// A log that was left by its last account leaves the chain; its lamports go to the state account
/// and its deposit for logs.
pub open spec fn left(state: MarketState, link: LogLink, around: LogNeighbours, state_lamports: u64) -> Result<
    (MarketState, LogNeighbours, u64),
    ErrorCode,
> {
    match crate::log_chain::unlinked(state, link, around.prev, around.next) {
        Err(e) => Err(e),
        Ok((state, prev, next)) => match (
            crate::math::as_amount(state_lamports + around.lamports),
            crate::math::as_amount(state.log_deposit_balance + around.lamports),
        ) {
            (Ok(state_lamports), Ok(log_deposit_balance)) => Ok(
                (
                    MarketState { log_deposit_balance, ..state },
                    LogNeighbours { lamports: 0, prev, next },
                    state_lamports,
                ),
            ),
            _ => Err(ErrorCode::Overflow),
        },
    }
}

/// Takes an empty log out of the chain, and returns the lamports of the state account.
pub fn leave_chain(state: &mut MarketState, link: &LogLink, around: &mut LogNeighbours, state_lamports: u64) -> (r: Result<
    u64,
    ErrorCode,
>)
    ensures
        match left(*old(state), *link, *old(around), state_lamports) {
            Ok((after, neighbours, lamports)) => r == Ok::<u64, ErrorCode>(lamports) && *final(state)
                == after && *final(around) == neighbours,
            Err(e) => r == Err::<u64, ErrorCode>(e),
        },
{
    log_close(state, link, &mut around.prev, &mut around.next)?;
    let lamports: u64 = plus(state_lamports, around.lamports)?;
    state.log_deposit_balance = plus(state.log_deposit_balance, around.lamports)?;
    around.lamports = 0;
    Ok(lamports)
}

/// The state after tokens go from a log out of the vault, and the transfer that takes them there.
pub open spec fn paid_from_log(state: MarketState, mkt_token: bool, amount: u64, mint_type: u8) -> Result<
    (MarketState, Option<Transfer>),
    ErrorCode,
> {
    if amount == 0 {
        Ok((state, None))
    } else {
        match MintType::spec_of(mint_type) {
            Err(e) => Err(e),
            Ok(mint_type) => {
                let paid = if mkt_token {
                    (
                        crate::math::as_amount(state.mkt_log_balance - amount),
                        crate::math::as_amount(state.mkt_vault_balance - amount),
                    )
                } else {
                    (
                        crate::math::as_amount(state.prc_log_balance - amount),
                        crate::math::as_amount(state.prc_vault_balance - amount),
                    )
                };
                match paid {
                    (Ok(log), Ok(vault)) => Ok(
                        (
                            if mkt_token {
                                MarketState { mkt_log_balance: log, mkt_vault_balance: vault, ..state }
                            } else {
                                MarketState { prc_log_balance: log, prc_vault_balance: vault, ..state }
                            },
                            Some(Transfer { mint_type, amount }),
                        ),
                    ),
                    _ => Err(ErrorCode::Overflow),
                }
            },
        }
    }
}

/// Takes tokens of a log out of the books.
pub fn pay_from_log(state: &mut MarketState, mkt_token: bool, amount: u64, mint_type: u8) -> (r: Result<
    Option<Transfer>,
    ErrorCode,
>)
    ensures
        match paid_from_log(*old(state), mkt_token, amount, mint_type) {
            Ok((after, transfer)) => r == Ok::<Option<Transfer>, ErrorCode>(transfer) && *final(state)
                == after,
            Err(e) => r == Err::<Option<Transfer>, ErrorCode>(e),
        },
{
    if amount == 0 {
        return Ok(None);
    }
    let mint_type: MintType = MintType::of(mint_type)?;
    if mkt_token {
        state.mkt_log_balance = minus(state.mkt_log_balance, amount)?;
        state.mkt_vault_balance = minus(state.mkt_vault_balance, amount)?;
    } else {
        state.prc_log_balance = minus(state.prc_log_balance, amount)?;
        state.prc_vault_balance = minus(state.prc_vault_balance, amount)?;
    }
    Ok(Some(Transfer { mint_type, amount }))
}

/// A withdrawal, by whoever asks for it.
#[derive(Clone, Copy, Debug)]
pub struct Taking {
    pub event_type: u128,
    pub market_key: Pubkey,
    pub market: Market,
    pub state_key: Pubkey,
    pub agent: Pubkey,
    pub owner: Pubkey,
    pub user: Pubkey,
    pub manager: bool,
    pub user_mkt_token: Pubkey,
    pub user_prc_token: Pubkey,
    pub mkt_vault: Pubkey,
    pub prc_vault: Pubkey,
    pub result: Pubkey,
    /// The lamports that the user gets back for the space in the log.
    pub rebate: u64,
    pub purse: Purse,
}

impl Withdraw {
    pub open spec fn spec_taking(self) -> Taking {
        Taking {
            event_type: WITHDRAW_EVENT,
            market_key: self.market_key,
            market: self.market,
            state_key: self.state_key,
            agent: self.agent,
            owner: self.owner,
            user: self.owner,
            manager: false,
            user_mkt_token: self.user_mkt_token,
            user_prc_token: self.user_prc_token,
            mkt_vault: self.mkt_vault,
            prc_vault: self.prc_vault,
            result: self.result,
            rebate: self.market.log_rebate,
            purse: self.purse,
        }
    }

    pub fn taking(&self) -> (r: Taking)
        ensures
            r == self.spec_taking(),
    {
        Taking {
            event_type: WITHDRAW_EVENT,
            market_key: self.market_key,
            market: self.market,
            state_key: self.state_key,
            agent: self.agent,
            owner: self.owner,
            user: self.owner,
            manager: false,
            user_mkt_token: self.user_mkt_token,
            user_prc_token: self.user_prc_token,
            mkt_vault: self.mkt_vault,
            prc_vault: self.prc_vault,
            result: self.result,
            rebate: self.market.log_rebate,
            purse: self.purse,
        }
    }
}

impl ManagerWithdraw {
    pub open spec fn spec_taking(self) -> Taking {
        Taking {
            event_type: MANAGER_WITHDRAW_EVENT,
            market_key: self.market_key,
            market: self.market,
            state_key: self.state_key,
            agent: self.agent,
            owner: self.owner,
            user: self.manager,
            manager: true,
            user_mkt_token: self.user_mkt_token,
            user_prc_token: self.user_prc_token,
            mkt_vault: self.mkt_vault,
            prc_vault: self.prc_vault,
            result: self.result,
            rebate: 0,
            purse: self.purse,
        }
    }

    pub fn taking(&self) -> (r: Taking)
        ensures
            r == self.spec_taking(),
    {
        Taking {
            event_type: MANAGER_WITHDRAW_EVENT,
            market_key: self.market_key,
            market: self.market,
            state_key: self.state_key,
            agent: self.agent,
            owner: self.owner,
            user: self.manager,
            manager: true,
            user_mkt_token: self.user_mkt_token,
            user_prc_token: self.user_prc_token,
            mkt_vault: self.mkt_vault,
            prc_vault: self.prc_vault,
            result: self.result,
            rebate: 0,
            purse: self.purse,
        }
    }
}

impl Taking {
    /// Whether the accounts are those of the market.
    pub open spec fn accounts_match(self) -> bool {
        self.market.state == self.state_key && self.market.agent == self.agent && self.market.mkt_vault
            == self.mkt_vault && self.market.prc_vault == self.prc_vault
    }

    /// The report of the withdrawal.
    pub open spec fn report(self, action_id: u64, entry: AccountEntry) -> WithdrawEvent {
        WithdrawEvent {
            event_type: self.event_type,
            action_id,
            market: self.market_key,
            owner: self.owner,
            user: self.user,
            market_account: self.user_mkt_token,
            pricing_account: self.user_prc_token,
            manager: self.manager,
            market_tokens: entry.mkt_token_balance,
            pricing_tokens: entry.prc_token_balance,
        }
    }

    /// The owner's account is closed: its tokens leave the vaults, the user is paid back for the
    /// space in the log, and a log that is left empty leaves the chain unless it is the first or
    /// the last.
    pub open spec fn done(self, state: MarketState, log: LogView, around: LogNeighbours) -> Result<
        Withdrawn,
        ErrorCode,
    > {
        let id = crate::settlement::owner_id(self.owner);
        if !self.accounts_match() {
            Err(ErrorCode::InvalidAccount)
        } else {
            match crate::order_rules::next_action(state) {
                Err(e) => Err(e),
                Ok(counted) => if log.header.market != self.market_key {
                    Err(ErrorCode::InvalidAccount)
                } else if !log.entries.contains_key(id) {
                    Err(ErrorCode::AccountNotFound)
                } else {
                    self.account_closed(counted, log, around)
                },
            }
        }
    }

    pub open spec fn account_closed(self, state: MarketState, log: LogView, around: LogNeighbours) -> Result<
        Withdrawn,
        ErrorCode,
    > {
        let id = crate::settlement::owner_id(self.owner);
        let entry = log.entries[id].value;
        match paid_from_log(state, true, entry.mkt_token_balance, self.market.mkt_mint_type) {
            Err(e) => Err(e),
            Ok((state, mkt_payout)) => match paid_from_log(
                state,
                false,
                entry.prc_token_balance,
                self.market.prc_mint_type,
            ) {
                Err(e) => Err(e),
                Ok((state, prc_payout)) => match log.close(id) {
                    Err(e) => Err(e),
                    Ok(closed) => match crate::log_chain::reimbursed(state, self.purse, self.rebate) {
                        Err(e) => Err(e),
                        Ok((state, purse)) => {
                            let rest = if leaves_chain(log.header) {
                                left(
                                    state,
                                    LogLink { key: closed.key, header: closed.header },
                                    around,
                                    purse.state_lamports,
                                )
                            } else {
                                Ok((state, around, purse.state_lamports))
                            };
                            match rest {
                                Err(e) => Err(e),
                                Ok((state, around, state_lamports)) => Ok(
                                    Withdrawn {
                                        state,
                                        log: closed,
                                        around,
                                        outcome: WithdrawOutcome {
                                            result: WithdrawResult {
                                                mkt_tokens: entry.mkt_token_balance,
                                                prc_tokens: entry.prc_token_balance,
                                            },
                                            store_result: self.result != self.user,
                                            mkt_payout,
                                            prc_payout,
                                            purse: Purse { state_lamports, ..purse },
                                            event: self.report(state.action_counter, entry),
                                        },
                                    },
                                ),
                            }
                        },
                    },
                },
            },
        }
    }

    /// Closes the owner's account. A request that is refused changes nothing.
    fn take(&self, state: &mut MarketState, settle: &mut SettleLog, around: &mut LogNeighbours) -> (r: Result<
        WithdrawOutcome,
        ErrorCode,
    >)
        requires
            old(settle).wf(),
        ensures
            final(settle).wf(),
            match self.done(*old(state), old(settle).view(), *old(around)) {
                Ok(w) => r == Ok::<WithdrawOutcome, ErrorCode>(w.outcome) && *final(state) == w.state
                    && final(settle).view() == w.log && *final(around) == w.around,
                Err(e) => r == Err::<WithdrawOutcome, ErrorCode>(e) && *final(state) == *old(state)
                    && *final(settle) == *old(settle) && *final(around) == *old(around),
            },
    {
        verify_matching_accounts(&self.market.state, &self.state_key)?;
        verify_matching_accounts(&self.market.agent, &self.agent)?;
        verify_matching_accounts(&self.market.mkt_vault, &self.mkt_vault)?;
        verify_matching_accounts(&self.market.prc_vault, &self.prc_vault)?;
        let mut after: MarketState = *state;
        after.action_counter = plus(after.action_counter, 1)?;
        let id: u128 = owner_key(&self.owner);
        verify_matching_accounts(&settle.header.market, &self.market_key)?;
        let close_log: bool = is_leaving(&settle.header);
        let entry: AccountEntry = match settle.account(id) {
            Some((_leaf, entry)) => entry,
            None => {
                return Err(ErrorCode::AccountNotFound);
            },
        };
        let mut result = WithdrawResult { mkt_tokens: 0, prc_tokens: 0 };
        result.set_mkt_tokens(entry.mkt_token_balance());
        result.set_prc_tokens(entry.prc_token_balance());
        let mkt_payout = pay_from_log(
            &mut after,
            true,
            entry.mkt_token_balance(),
            self.market.mkt_mint_type,
        )?;
        let prc_payout = pay_from_log(
            &mut after,
            false,
            entry.prc_token_balance(),
            self.market.prc_mint_type,
        )?;
        if settle.header.items == 0 {
            return Err(ErrorCode::Overflow);
        }
        let link = LogLink {
            key: settle.key,
            header: AccountsHeader { items: settle.header.items - 1, ..settle.header },
        };
        let mut purse: Purse = log_reimburse(&mut after, &self.purse, self.rebate)?;
        let mut near: LogNeighbours = *around;
        if close_log {
            purse.state_lamports = leave_chain(&mut after, &link, &mut near, purse.state_lamports)?;
        }
        settle.close_account(id)?;
        *state = after;
        *around = near;
        Ok(
            WithdrawOutcome {
                result,
                store_result: self.result != self.user,
                mkt_payout,
                prc_payout,
                purse,
                event: WithdrawEvent {
                    event_type: self.event_type,
                    action_id: after.action_counter,
                    market: self.market_key,
                    owner: self.owner,
                    user: self.user,
                    market_account: self.user_mkt_token,
                    pricing_account: self.user_prc_token,
                    manager: self.manager,
                    market_tokens: entry.mkt_token_balance(),
                    pricing_tokens: entry.prc_token_balance(),
                },
            },
        )
    }
}

/// A withdrawal by the owner.
pub open spec fn withdrawn(state: MarketState, log: LogView, around: LogNeighbours, ctx: Withdraw) -> Result<
    Withdrawn,
    ErrorCode,
> {
    ctx.spec_taking().done(state, log, around)
}

/// A withdrawal by the manager, where the market allows it.
pub open spec fn manager_withdrawn(
    state: MarketState,
    log: LogView,
    around: LogNeighbours,
    ctx: ManagerWithdraw,
) -> Result<Withdrawn, ErrorCode> {
    if !ctx.market.manager_withdraw || ctx.market.manager != ctx.manager {
        Err(ErrorCode::AccessDenied)
    } else {
        ctx.spec_taking().done(state, log, around)
    }
}

/// Withdraws the tokens of an owner from a settlement log. A request that is refused changes
/// nothing.
pub fn withdraw(
    state: &mut MarketState,
    settle: &mut SettleLog,
    around: &mut LogNeighbours,
    ctx: &Withdraw,
) -> (r: Result<WithdrawOutcome, ErrorCode>)
    requires
        old(settle).wf(),
    ensures
        final(settle).wf(),
        match withdrawn(*old(state), old(settle).view(), *old(around), *ctx) {
            Ok(w) => r == Ok::<WithdrawOutcome, ErrorCode>(w.outcome) && *final(state) == w.state
                && final(settle).view() == w.log && *final(around) == w.around,
            Err(e) => r == Err::<WithdrawOutcome, ErrorCode>(e) && *final(state) == *old(state)
                && *final(settle) == *old(settle) && *final(around) == *old(around),
        },
{
    ctx.taking().take(state, settle, around)
}

/// Withdraws the tokens of an owner from a settlement log at the manager's request. A request that
/// is refused changes nothing.
pub fn manager_withdraw(
    state: &mut MarketState,
    settle: &mut SettleLog,
    around: &mut LogNeighbours,
    ctx: &ManagerWithdraw,
) -> (r: Result<WithdrawOutcome, ErrorCode>)
    requires
        old(settle).wf(),
    ensures
        final(settle).wf(),
        match manager_withdrawn(*old(state), old(settle).view(), *old(around), *ctx) {
            Ok(w) => r == Ok::<WithdrawOutcome, ErrorCode>(w.outcome) && *final(state) == w.state
                && final(settle).view() == w.log && *final(around) == w.around,
            Err(e) => r == Err::<WithdrawOutcome, ErrorCode>(e) && *final(state) == *old(state)
                && *final(settle) == *old(settle) && *final(around) == *old(around),
        },
{
    if !ctx.market.manager_withdraw {
        return Err(ErrorCode::AccessDenied);
    }
    if ctx.market.manager != ctx.manager {
        return Err(ErrorCode::AccessDenied);
    }
    ctx.taking().take(state, settle, around)
}

} // verus!
