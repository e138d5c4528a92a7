//! User vaults: tokens that the manager has moved out of a settlement log for their owner.
use crate::context::{verify_matching_accounts, Transfer};
use crate::log_chain::LogLink;
use crate::market::{
    ErrorCode, Market, MarketState, MintType, UserVault, VaultDepositEvent, VaultWithdrawEvent,
};
use crate::math::{minus, plus};
use crate::pubkey::Pubkey;
use crate::records::{AccountEntry, AccountsHeader};
use crate::settlement::{owner_key, LogView, SettleLog};
use crate::withdraw::{is_leaving, leave_chain, LogNeighbours};
use vstd::prelude::*;

verus! {

pub const VAULT_DEPOSIT_EVENT: u128 = 116949236330450057903776475751429156227;

pub const VAULT_WITHDRAW_EVENT: u128 = 222531087088795477156040686028020078326;

pub const MANAGER_VAULT_WITHDRAW_EVENT: u128 = 155648231829618734246883800498177854177;

/// The accounts that come with the creation of a vault.
#[derive(Clone, Copy, Debug)]
pub struct CreateVault {
    pub market_key: Pubkey,
    pub market: Market,
    pub manager: Pubkey,
    pub owner: Pubkey,
}

/// The accounts that come with a deposit to a vault.
#[derive(Clone, Copy, Debug)]
pub struct VaultDeposit {
    pub market_key: Pubkey,
    pub market: Market,
    pub state_key: Pubkey,
    pub vault_key: Pubkey,
    pub manager: Pubkey,
    pub owner: Pubkey,
    pub state_lamports: u64,
}

/// The accounts that come with a withdrawal from a vault by its owner.
#[derive(Clone, Copy, Debug)]
pub struct VaultWithdraw {
    pub market_key: Pubkey,
    pub market: Market,
    pub state_key: Pubkey,
    pub vault_key: Pubkey,
    pub agent: Pubkey,
    pub owner: Pubkey,
    pub user_mkt_token: Pubkey,
    pub user_prc_token: Pubkey,
    pub mkt_vault: Pubkey,
    pub prc_vault: Pubkey,
    pub vault_lamports: u64,
    pub state_lamports: u64,
}

/// The accounts that come with a withdrawal from a vault by the manager.
#[derive(Clone, Copy, Debug)]
pub struct ManagerVaultWithdraw {
    pub manager: Pubkey,
    /// All other accounts; the owner is the owner of the tokens.
    pub accounts: VaultWithdraw,
}

/// The accounts that come with the closing of a vault.
#[derive(Clone, Copy, Debug)]
pub struct CloseVault {
    pub market: Market,
    pub manager: Pubkey,
}

/// What a deposit to a vault comes to.
#[derive(Clone, Copy, Debug)]
pub struct VaultDepositOutcome {
    pub state_lamports: u64,
    /// Nothing is reported if there were no tokens.
    pub event: Option<VaultDepositEvent>,
}

/// What a withdrawal from a vault comes to.
#[derive(Clone, Copy, Debug)]
pub struct VaultWithdrawOutcome {
    /// From the market's vaults to the owner.
    pub mkt_payout: Option<Transfer>,
    pub prc_payout: Option<Transfer>,
    pub vault_lamports: u64,
    pub state_lamports: u64,
    /// Nothing is reported if there were no tokens.
    pub event: Option<VaultWithdrawEvent>,
}

/// A deposit to a vault that went through.
#[verifier::ext_equal]
pub struct Stored {
    pub state: MarketState,
    pub vault: UserVault,
    pub log: LogView,
    pub around: LogNeighbours,
    pub outcome: VaultDepositOutcome,
}

/// A withdrawal from a vault that went through.
#[verifier::ext_equal]
pub struct Emptied {
    pub state: MarketState,
    pub vault: UserVault,
    pub outcome: VaultWithdrawOutcome,
}

/// The vault after it is set up for an owner, once.
pub open spec fn set_up(vault: UserVault, ctx: CreateVault) -> Result<UserVault, ErrorCode> {
    if ctx.market.manager != ctx.manager {
        Err(ErrorCode::AccessDenied)
    } else if vault.initialized {
        Ok(vault)
    } else {
        Ok(
            UserVault {
                initialized: true,
                market: ctx.market_key,
                owner: ctx.owner,
                mkt_tokens: 0,
                prc_tokens: 0,
            },
        )
    }
}

/// Sets up a vault for an owner, once.
pub fn create_vault(vault: &mut UserVault, ctx: &CreateVault) -> (r: Result<(), ErrorCode>)
    ensures
        match set_up(*old(vault), *ctx) {
            Ok(v) => r is Ok && *final(vault) == v,
            Err(e) => r == Err::<(), ErrorCode>(e) && *final(vault) == *old(vault),
        },
        r == if ctx.market.manager != ctx.manager {
            Err::<(), ErrorCode>(ErrorCode::AccessDenied)
        } else {
            Ok(())
        },
        *final(vault) == if r is Err || old(vault).initialized {
            *old(vault)
        } else {
            UserVault {
                initialized: true,
                market: ctx.market_key,
                owner: ctx.owner,
                mkt_tokens: 0,
                prc_tokens: 0,
            }
        },
{
    if ctx.market.manager != ctx.manager {
        return Err(ErrorCode::AccessDenied);
    }
    if !vault.initialized {
        vault.initialized = true;
        vault.market = ctx.market_key;
        vault.owner = ctx.owner;
        vault.mkt_tokens = 0;
        vault.prc_tokens = 0;
    }
    Ok(())
}

/// The state and the vault after tokens go from a log to the vault.
pub open spec fn moved_to_vault(state: MarketState, vault: UserVault, mkt_token: bool, amount: u64) -> Result<
    (MarketState, UserVault),
    ErrorCode,
> {
    if mkt_token {
        match (
            crate::math::as_amount(state.mkt_log_balance - amount),
            crate::math::as_amount(state.mkt_user_vault_balance + amount),
            crate::math::as_amount(vault.mkt_tokens + amount),
        ) {
            (Ok(mkt_log_balance), Ok(mkt_user_vault_balance), Ok(mkt_tokens)) => Ok(
                (
                    MarketState { mkt_log_balance, mkt_user_vault_balance, ..state },
                    UserVault { mkt_tokens, ..vault },
                ),
            ),
            _ => Err(ErrorCode::Overflow),
        }
    } else {
        match (
            crate::math::as_amount(state.prc_log_balance - amount),
            crate::math::as_amount(state.prc_user_vault_balance + amount),
            crate::math::as_amount(vault.prc_tokens + amount),
        ) {
            (Ok(prc_log_balance), Ok(prc_user_vault_balance), Ok(prc_tokens)) => Ok(
                (
                    MarketState { prc_log_balance, prc_user_vault_balance, ..state },
                    UserVault { prc_tokens, ..vault },
                ),
            ),
            _ => Err(ErrorCode::Overflow),
        }
    }
}

/// Moves tokens from a log to a vault.
fn move_to_vault(state: &mut MarketState, vault: &mut UserVault, mkt_token: bool, amount: u64) -> (r: Result<
    (),
    ErrorCode,
>)
    ensures
        match moved_to_vault(*old(state), *old(vault), mkt_token, amount) {
            Ok((after, filled)) => r is Ok && *final(state) == after && *final(vault) == filled,
            Err(e) => r == Err::<(), ErrorCode>(e),
        },
{
    if mkt_token {
        state.mkt_log_balance = minus(state.mkt_log_balance, amount)?;
        state.mkt_user_vault_balance = plus(state.mkt_user_vault_balance, amount)?;
        vault.mkt_tokens = plus(vault.mkt_tokens, amount)?;
    } else {
        state.prc_log_balance = minus(state.prc_log_balance, amount)?;
        state.prc_user_vault_balance = plus(state.prc_user_vault_balance, amount)?;
        vault.prc_tokens = plus(vault.prc_tokens, amount)?;
    }
    Ok(())
}

impl VaultDeposit {
    /// The report of the deposit.
    pub open spec fn report(self, action_id: u64, vault: UserVault, entry: AccountEntry) -> VaultDepositEvent {
        VaultDepositEvent {
            event_type: VAULT_DEPOSIT_EVENT,
            action_id,
            market: self.market_key,
            owner: self.owner,
            vault: self.vault_key,
            market_tokens: entry.mkt_token_balance,
            market_balance: vault.mkt_tokens,
            pricing_tokens: entry.prc_token_balance,
            pricing_balance: vault.prc_tokens,
        }
    }

    /// The owner's account in the log is closed and its tokens go to the vault; a log that is left
    /// empty leaves the chain unless it is the first or the last.
    pub open spec fn done(self, state: MarketState, vault: UserVault, log: LogView, around: LogNeighbours) -> Result<
        Stored,
        ErrorCode,
    > {
        let id = crate::settlement::owner_id(self.owner);
        if self.market.manager != self.manager {
            Err(ErrorCode::AccessDenied)
        } else if self.market.state != self.state_key || log.header.market != self.market_key {
            Err(ErrorCode::InvalidAccount)
        } else if !log.entries.contains_key(id) {
            Err(ErrorCode::AccountNotFound)
        } else {
            let entry = log.entries[id].value;
            match moved_to_vault(state, vault, true, entry.mkt_token_balance) {
                Err(e) => Err(e),
                Ok((state, vault)) => match moved_to_vault(state, vault, false, entry.prc_token_balance) {
                    Err(e) => Err(e),
                    Ok((state, vault)) => self.account_closed(state, vault, log, around),
                },
            }
        }
    }

    pub open spec fn account_closed(
        self,
        state: MarketState,
        vault: UserVault,
        log: LogView,
        around: LogNeighbours,
    ) -> Result<Stored, ErrorCode> {
        let id = crate::settlement::owner_id(self.owner);
        let entry = log.entries[id].value;
        match log.close(id) {
            Err(e) => Err(e),
            Ok(closed) => {
                let rest = if crate::withdraw::leaves_chain(log.header) {
                    crate::withdraw::left(
                        state,
                        LogLink { key: closed.key, header: closed.header },
                        around,
                        self.state_lamports,
                    )
                } else {
                    Ok((state, around, self.state_lamports))
                };
                match rest {
                    Err(e) => Err(e),
                    Ok((state, around, state_lamports)) => if entry.mkt_token_balance == 0
                        && entry.prc_token_balance == 0 {
                        Ok(
                            Stored {
                                state,
                                vault,
                                log: closed,
                                around,
                                outcome: VaultDepositOutcome { state_lamports, event: None },
                            },
                        )
                    } else {
                        match crate::order_rules::next_action(state) {
                            Err(e) => Err(e),
                            Ok(state) => Ok(
                                Stored {
                                    state,
                                    vault,
                                    log: closed,
                                    around,
                                    outcome: VaultDepositOutcome {
                                        state_lamports,
                                        event: Some(self.report(state.action_counter, vault, entry)),
                                    },
                                },
                            ),
                        }
                    },
                }
            },
        }
    }
}

/// Moves the tokens of an owner from a settlement log to the owner's vault. A request that is
/// refused changes nothing.
pub fn vault_deposit(
    state: &mut MarketState,
    vault: &mut UserVault,
    settle: &mut SettleLog,
    around: &mut LogNeighbours,
    ctx: &VaultDeposit,
) -> (r: Result<VaultDepositOutcome, ErrorCode>)
    requires
        old(settle).wf(),
    ensures
        final(settle).wf(),
        match ctx.done(*old(state), *old(vault), old(settle).view(), *old(around)) {
            Ok(s) => r == Ok::<VaultDepositOutcome, ErrorCode>(s.outcome) && *final(state) == s.state
                && *final(vault) == s.vault && final(settle).view() == s.log && *final(around)
                == s.around,
            Err(e) => r == Err::<VaultDepositOutcome, ErrorCode>(e) && *final(state) == *old(state)
                && *final(vault) == *old(vault) && *final(settle) == *old(settle) && *final(around)
                == *old(around),
        },
{
    if ctx.market.manager != ctx.manager {
        return Err(ErrorCode::AccessDenied);
    }
    verify_matching_accounts(&ctx.market.state, &ctx.state_key)?;
    let id: u128 = owner_key(&ctx.owner);
    let close_log: bool = is_leaving(&settle.header);
    verify_matching_accounts(&settle.header.market, &ctx.market_key)?;
    let entry: AccountEntry = match settle.account(id) {
        Some((_leaf, entry)) => entry,
        None => {
            return Err(ErrorCode::AccountNotFound);
        },
    };
    let mut after: MarketState = *state;
    let mut filled: UserVault = *vault;
    let market_tokens: u64 = entry.mkt_token_balance();
    let pricing_tokens: u64 = entry.prc_token_balance();
    move_to_vault(&mut after, &mut filled, true, market_tokens)?;
    move_to_vault(&mut after, &mut filled, false, pricing_tokens)?;
    if settle.header.items == 0 {
        return Err(ErrorCode::Overflow);
    }
    let link = LogLink {
        key: settle.key,
        header: AccountsHeader { items: settle.header.items - 1, ..settle.header },
    };
    let mut near: LogNeighbours = *around;
    let mut state_lamports: u64 = ctx.state_lamports;
    if close_log {
        state_lamports = leave_chain(&mut after, &link, &mut near, state_lamports)?;
    }
    let mut event: Option<VaultDepositEvent> = None;
    if market_tokens > 0 || pricing_tokens > 0 {
        after.action_counter = plus(after.action_counter, 1)?;
        event =
        Some(
            VaultDepositEvent {
                event_type: VAULT_DEPOSIT_EVENT,
                action_id: after.action_counter,
                market: ctx.market_key,
                owner: ctx.owner,
                vault: ctx.vault_key,
                market_tokens,
                market_balance: filled.mkt_tokens,
                pricing_tokens,
                pricing_balance: filled.prc_tokens,
            },
        );
    }
    settle.close_account(id)?;
    *state = after;
    *vault = filled;
    *around = near;
    Ok(VaultDepositOutcome { state_lamports, event })
}

/// The state after tokens go from a user's vault out of the market's vault, and the transfer that
/// takes them there.
pub open spec fn paid_from_vault(state: MarketState, mkt_token: bool, amount: u64, mint_type: u8) -> Result<
    (MarketState, Option<Transfer>),
    ErrorCode,
> {
    if amount == 0 {
        Ok((state, None))
    } else {
        match MintType::spec_of(mint_type) {
            Err(e) => Err(e),
            Ok(mint_type) => {
                let paid = if mkt_token {
                    (
                        crate::math::as_amount(state.mkt_vault_balance - amount),
                        crate::math::as_amount(state.mkt_user_vault_balance - amount),
                    )
                } else {
                    (
                        crate::math::as_amount(state.prc_vault_balance - amount),
                        crate::math::as_amount(state.prc_user_vault_balance - amount),
                    )
                };
                match paid {
                    (Ok(vault), Ok(user)) => Ok(
                        (
                            if mkt_token {
                                MarketState {
                                    mkt_vault_balance: vault,
                                    mkt_user_vault_balance: user,
                                    ..state
                                }
                            } else {
                                MarketState {
                                    prc_vault_balance: vault,
                                    prc_user_vault_balance: user,
                                    ..state
                                }
                            },
                            Some(Transfer { mint_type, amount }),
                        ),
                    ),
                    _ => Err(ErrorCode::Overflow),
                }
            },
        }
    }
}

/// Takes tokens of a user's vault out of the books.
fn pay_from_vault(state: &mut MarketState, mkt_token: bool, amount: u64, mint_type: u8) -> (r: Result<
    Option<Transfer>,
    ErrorCode,
>)
    ensures
        match paid_from_vault(*old(state), mkt_token, amount, mint_type) {
            Ok((after, transfer)) => r == Ok::<Option<Transfer>, ErrorCode>(transfer) && *final(state)
                == after,
            Err(e) => r == Err::<Option<Transfer>, ErrorCode>(e),
        },
{
    if amount == 0 {
        return Ok(None);
    }
    let mint_type: MintType = MintType::of(mint_type)?;
    if mkt_token {
        state.mkt_vault_balance = minus(state.mkt_vault_balance, amount)?;
        state.mkt_user_vault_balance = minus(state.mkt_user_vault_balance, amount)?;
    } else {
        state.prc_vault_balance = minus(state.prc_vault_balance, amount)?;
        state.prc_user_vault_balance = minus(state.prc_user_vault_balance, amount)?;
    }
    Ok(Some(Transfer { mint_type, amount }))
}

impl VaultWithdraw {
    /// Whether the accounts are those of the market.
    pub open spec fn accounts_match(self) -> bool {
        self.market.state == self.state_key && self.market.agent == self.agent && self.market.mkt_vault
            == self.mkt_vault && self.market.prc_vault == self.prc_vault
    }

    /// The report of the withdrawal.
    pub open spec fn report(self, event_type: u128, user: Pubkey, manager: bool, action_id: u64, vault: UserVault) -> VaultWithdrawEvent {
        VaultWithdrawEvent {
            event_type,
            action_id,
            market: self.market_key,
            owner: self.owner,
            user,
            vault: self.vault_key,
            market_account: self.user_mkt_token,
            pricing_account: self.user_prc_token,
            manager,
            market_tokens: vault.mkt_tokens,
            pricing_tokens: vault.prc_tokens,
        }
    }

    /// All tokens leave the vault, and its lamports go to the state account and its deposit for
    /// logs. Nothing happens to an empty vault.
    pub open spec fn emptied(self, state: MarketState, vault: UserVault, event_type: u128, user: Pubkey, manager: bool) -> Result<
        Emptied,
        ErrorCode,
    > {
        if !self.accounts_match() {
            Err(ErrorCode::InvalidAccount)
        } else if vault.mkt_tokens == 0 && vault.prc_tokens == 0 {
            Ok(
                Emptied {
                    state,
                    vault,
                    outcome: VaultWithdrawOutcome {
                        mkt_payout: None,
                        prc_payout: None,
                        vault_lamports: self.vault_lamports,
                        state_lamports: self.state_lamports,
                        event: None,
                    },
                },
            )
        } else {
            match crate::order_rules::next_action(state) {
                Err(e) => Err(e),
                Ok(state) => match paid_from_vault(
                    state,
                    true,
                    vault.mkt_tokens,
                    self.market.mkt_mint_type,
                ) {
                    Err(e) => Err(e),
                    Ok((state, mkt_payout)) => match paid_from_vault(
                        state,
                        false,
                        vault.prc_tokens,
                        self.market.prc_mint_type,
                    ) {
                        Err(e) => Err(e),
                        Ok((state, prc_payout)) => match (
                            crate::math::as_amount(self.state_lamports + self.vault_lamports),
                            crate::math::as_amount(state.log_deposit_balance + self.vault_lamports),
                        ) {
                            (Ok(state_lamports), Ok(log_deposit_balance)) => Ok(
                                Emptied {
                                    state: MarketState { log_deposit_balance, ..state },
                                    vault: UserVault { mkt_tokens: 0, prc_tokens: 0, ..vault },
                                    outcome: VaultWithdrawOutcome {
                                        mkt_payout,
                                        prc_payout,
                                        vault_lamports: 0,
                                        state_lamports,
                                        event: Some(
                                            self.report(
                                                event_type,
                                                user,
                                                manager,
                                                state.action_counter,
                                                vault,
                                            ),
                                        ),
                                    },
                                },
                            ),
                            _ => Err(ErrorCode::Overflow),
                        },
                    },
                },
            }
        }
    }

    /// Empties the vault. A request that is refused changes nothing.
    fn empty(&self, state: &mut MarketState, vault: &mut UserVault, event_type: u128, user: &Pubkey, manager: bool) -> (r: Result<
        VaultWithdrawOutcome,
        ErrorCode,
    >)
        ensures
            match self.emptied(*old(state), *old(vault), event_type, *user, manager) {
                Ok(e) => r == Ok::<VaultWithdrawOutcome, ErrorCode>(e.outcome) && *final(state)
                    == e.state && *final(vault) == e.vault,
                Err(e) => r == Err::<VaultWithdrawOutcome, ErrorCode>(e) && *final(state) == *old(state)
                    && *final(vault) == *old(vault),
            },
    {
        verify_matching_accounts(&self.market.state, &self.state_key)?;
        verify_matching_accounts(&self.market.agent, &self.agent)?;
        verify_matching_accounts(&self.market.mkt_vault, &self.mkt_vault)?;
        verify_matching_accounts(&self.market.prc_vault, &self.prc_vault)?;
        let market_tokens: u64 = vault.mkt_tokens;
        let pricing_tokens: u64 = vault.prc_tokens;
        if market_tokens == 0 && pricing_tokens == 0 {
            return Ok(
                VaultWithdrawOutcome {
                    mkt_payout: None,
                    prc_payout: None,
                    vault_lamports: self.vault_lamports,
                    state_lamports: self.state_lamports,
                    event: None,
                },
            );
        }
        let mut after: MarketState = *state;
        after.action_counter = plus(after.action_counter, 1)?;
        let mkt_payout = pay_from_vault(&mut after, true, market_tokens, self.market.mkt_mint_type)?;
        let prc_payout = pay_from_vault(&mut after, false, pricing_tokens, self.market.prc_mint_type)?;
        let state_lamports: u64 = plus(self.state_lamports, self.vault_lamports)?;
        after.log_deposit_balance = plus(after.log_deposit_balance, self.vault_lamports)?;
        *state = after;
        vault.mkt_tokens = 0;
        vault.prc_tokens = 0;
        Ok(
            VaultWithdrawOutcome {
                mkt_payout,
                prc_payout,
                vault_lamports: 0,
                state_lamports,
                event: Some(
                    VaultWithdrawEvent {
                        event_type,
                        action_id: after.action_counter,
                        market: self.market_key,
                        owner: self.owner,
                        user: *user,
                        vault: self.vault_key,
                        market_account: self.user_mkt_token,
                        pricing_account: self.user_prc_token,
                        manager,
                        market_tokens,
                        pricing_tokens,
                    },
                ),
            },
        )
    }
}

/// A withdrawal from a vault by its owner.
pub open spec fn vault_withdrawn(state: MarketState, vault: UserVault, ctx: VaultWithdraw) -> Result<
    Emptied,
    ErrorCode,
> {
    if vault.owner != ctx.owner {
        Err(ErrorCode::AccessDenied)
    } else {
        ctx.emptied(state, vault, VAULT_WITHDRAW_EVENT, ctx.owner, false)
    }
}

/// A withdrawal from a vault by the manager, where the market allows it.
pub open spec fn manager_vault_withdrawn(state: MarketState, vault: UserVault, ctx: ManagerVaultWithdraw) -> Result<
    Emptied,
    ErrorCode,
> {
    if !ctx.accounts.market.manager_withdraw || ctx.accounts.market.manager != ctx.manager {
        Err(ErrorCode::AccessDenied)
    } else {
        ctx.accounts.emptied(state, vault, MANAGER_VAULT_WITHDRAW_EVENT, ctx.manager, true)
    }
}

/// Withdraws all tokens of an owner's vault. A request that is refused changes nothing.
pub fn vault_withdraw(state: &mut MarketState, vault: &mut UserVault, ctx: &VaultWithdraw) -> (r: Result<
    VaultWithdrawOutcome,
    ErrorCode,
>)
    ensures
        match vault_withdrawn(*old(state), *old(vault), *ctx) {
            Ok(e) => r == Ok::<VaultWithdrawOutcome, ErrorCode>(e.outcome) && *final(state) == e.state
                && *final(vault) == e.vault,
            Err(e) => r == Err::<VaultWithdrawOutcome, ErrorCode>(e) && *final(state) == *old(state)
                && *final(vault) == *old(vault),
        },
{
    if vault.owner != ctx.owner {
        return Err(ErrorCode::AccessDenied);
    }
    ctx.empty(state, vault, VAULT_WITHDRAW_EVENT, &ctx.owner, false)
}

/// Withdraws all tokens of an owner's vault at the manager's request. A request that is refused
/// changes nothing.
pub fn manager_vault_withdraw(state: &mut MarketState, vault: &mut UserVault, ctx: &ManagerVaultWithdraw) -> (r: Result<
    VaultWithdrawOutcome,
    ErrorCode,
>)
    ensures
        match manager_vault_withdrawn(*old(state), *old(vault), *ctx) {
            Ok(e) => r == Ok::<VaultWithdrawOutcome, ErrorCode>(e.outcome) && *final(state) == e.state
                && *final(vault) == e.vault,
            Err(e) => r == Err::<VaultWithdrawOutcome, ErrorCode>(e) && *final(state) == *old(state)
                && *final(vault) == *old(vault),
        },
{
    if !ctx.accounts.market.manager_withdraw {
        return Err(ErrorCode::AccessDenied);
    }
    if ctx.accounts.market.manager != ctx.manager {
        return Err(ErrorCode::AccessDenied);
    }
    ctx.accounts.empty(state, vault, MANAGER_VAULT_WITHDRAW_EVENT, &ctx.manager, true)
}

/// What stands against closing a vault.
pub open spec fn close_error(vault: UserVault, ctx: CloseVault) -> Option<ErrorCode> {
    if ctx.market.manager != ctx.manager {
        Some(ErrorCode::AccessDenied)
    } else if vault.mkt_tokens > 0 || vault.prc_tokens > 0 {
        Some(ErrorCode::VaultNotEmpty)
    } else {
        None
    }
}

/// Whether the manager may close a vault: only an empty one.
pub fn close_vault(vault: &UserVault, ctx: &CloseVault) -> (r: Result<(), ErrorCode>)
    ensures
        match close_error(*vault, *ctx) {
            Some(e) => r == Err::<(), ErrorCode>(e),
            None => r is Ok,
        },
        r == if ctx.market.manager != ctx.manager {
            Err::<(), ErrorCode>(ErrorCode::AccessDenied)
        } else if vault.mkt_tokens > 0 || vault.prc_tokens > 0 {
            Err(ErrorCode::VaultNotEmpty)
        } else {
            Ok(())
        },
{
    if ctx.market.manager != ctx.manager {
        return Err(ErrorCode::AccessDenied);
    }
    if vault.mkt_tokens > 0 || vault.prc_tokens > 0 {
        return Err(ErrorCode::VaultNotEmpty);
    }
    Ok(())
}

} // verus!
