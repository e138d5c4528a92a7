//! The chain of settlement logs: adding one at its end, and taking an empty one out.
use crate::accounts::NewAccount;
use crate::context::{verify_matching_accounts, Purse};
use crate::market::{ErrorCode, LogStatusResult, Market, MarketState};
use crate::math::{minus, plus};
use crate::pubkey::Pubkey;
use crate::records::AccountsHeader;
use crate::settlement::{LogView, SettleLog};
use vstd::prelude::*;

verus! {

/// The key of a settlement log and its head.
#[derive(Clone, Copy, Debug)]
pub struct LogLink {
    pub key: Pubkey,
    pub header: AccountsHeader,
}

/// The accounts that come with a request to add a settlement log.
#[derive(Clone, Copy, Debug)]
pub struct ExtendLog {
    pub market_key: Pubkey,
    pub market: Market,
    pub state_key: Pubkey,
    pub purse: Purse,
}

impl Purse {
    /// The purse after lamports go from the state account to the user.
    pub open spec fn paid_out(self, amount: u64) -> Result<Purse, ErrorCode> {
        match (
            crate::math::as_amount(self.user_lamports + amount),
            crate::math::as_amount(self.state_lamports - amount),
        ) {
            (Ok(user_lamports), Ok(state_lamports)) => Ok(Purse { user_lamports, state_lamports }),
            _ => Err(ErrorCode::Overflow),
        }
    }

    /// The purse after lamports go from the user to the state account.
    pub open spec fn paid_in(self, amount: u64) -> Result<Purse, ErrorCode> {
        match (
            crate::math::as_amount(self.user_lamports - amount),
            crate::math::as_amount(self.state_lamports + amount),
        ) {
            (Ok(user_lamports), Ok(state_lamports)) => Ok(Purse { user_lamports, state_lamports }),
            _ => Err(ErrorCode::Overflow),
        }
    }

    /// Pays lamports from the state account to the user.
    pub fn pay_out(&self, amount: u64) -> (r: Result<Purse, ErrorCode>)
        ensures
            r == self.paid_out(amount),
    {
        let user_lamports: u64 = plus(self.user_lamports, amount)?;
        let state_lamports: u64 = minus(self.state_lamports, amount)?;
        Ok(Purse { user_lamports, state_lamports })
    }

    /// Pays lamports from the user to the state account.
    pub fn pay_in(&self, amount: u64) -> (r: Result<Purse, ErrorCode>)
        ensures
            r == self.paid_in(amount),
    {
        let user_lamports: u64 = minus(self.user_lamports, amount)?;
        let state_lamports: u64 = plus(self.state_lamports, amount)?;
        Ok(Purse { user_lamports, state_lamports })
    }
}

/// The state, the last log and the new log after a log is put behind the last one.
pub open spec fn rolled(state: MarketState, log_b: LogView, market: Pubkey, new_log: (Pubkey, nat)) -> (
    MarketState,
    LogView,
    LogView,
) {
    (
        MarketState { settle_a: log_b.key, settle_b: new_log.0, log_rollover: false, ..state },
        LogView { header: AccountsHeader { next: new_log.0, ..log_b.header }, ..log_b },
        LogView {
            key: new_log.0,
            header: AccountsHeader { market, prev: log_b.key, next: Pubkey::zero(), items: 0 },
            entries: Map::empty(),
            slots: new_log.1,
        },
    )
}

/// The state and the lamports after a user is paid back for a new log.
pub open spec fn reimbursed(state: MarketState, purse: Purse, amount: u64) -> Result<
    (MarketState, Purse),
    ErrorCode,
> {
    match (crate::math::as_amount(state.log_deposit_balance - amount), purse.paid_out(amount)) {
        (Ok(log_deposit_balance), Ok(purse)) => Ok(
            (MarketState { log_deposit_balance, ..state }, purse),
        ),
        _ => Err(ErrorCode::Overflow),
    }
}

/// The key and the size of a new settlement log.
pub open spec fn new_log_of(account: NewAccount) -> (Pubkey, nat) {
    (
        account.key,
        crate::accounts::log_slots(account.pages(crate::accounts::ACCOUNTS_HEADER_SIZE as int)),
    )
}

/// Puts a new settlement log behind the last one.
pub fn log_rollover(state: &mut MarketState, settle_b: &mut SettleLog, market_key: &Pubkey, account: NewAccount) -> (r: SettleLog)
    requires
        old(settle_b).wf(),
        account.has_pages(
            crate::accounts::ACCOUNTS_HEADER_SIZE as int,
            crate::accounts::SETTLE_PAGES as int,
        ),
    ensures
        final(settle_b).wf(),
        r.wf(),
        (*final(state), final(settle_b).view(), r.view()) == rolled(
            *old(state),
            old(settle_b).view(),
            *market_key,
            new_log_of(account),
        ),
{
    proof {
        reveal(SettleLog::wf);
    }
    let ghost before = settle_b.view();
    let ghost state0 = *state;
    let key: Pubkey = account.key;
    settle_b.header.set_next(&key);
    let log = SettleLog::create(account, market_key, &settle_b.key, &Pubkey::default());
    state.settle_a = settle_b.key;
    state.settle_b = key;
    state.log_rollover = false;
    proof {
        let r = rolled(state0, before, *market_key, new_log_of(account));
        assert(settle_b.view() =~= r.1);
        assert(log.view() =~= r.2);
    }
    log
}

/// Pays a user back for a new log.
pub fn log_reimburse(state: &mut MarketState, purse: &Purse, amount: u64) -> (r: Result<Purse, ErrorCode>)
    ensures
        match reimbursed(*old(state), *purse, amount) {
            Ok((after, paid)) => r == Ok::<Purse, ErrorCode>(paid) && *final(state) == after,
            Err(e) => r == Err::<Purse, ErrorCode>(e),
        },
{
    state.log_deposit_balance = minus(state.log_deposit_balance, amount)?;
    purse.pay_out(amount)
}

/// What an extension of the chain of logs comes to.
#[verifier::ext_equal]
pub struct Extended {
    pub state: MarketState,
    pub log_b: LogView,
    pub new_log: LogView,
    pub purse: Purse,
}

/// A new settlement log is put behind the last one at a user's request, who is paid back.
pub open spec fn extended(state: MarketState, log_b: LogView, ctx: ExtendLog, new_log: (Pubkey, nat)) -> Result<
    Extended,
    ErrorCode,
> {
    if ctx.market.state != ctx.state_key {
        Err(ErrorCode::InvalidAccount)
    } else if state.settle_b != log_b.key || !state.log_rollover {
        Err(ErrorCode::RetrySettlementAccount)
    } else {
        let (after, log_b, new_log) = rolled(state, log_b, ctx.market_key, new_log);
        match reimbursed(after, ctx.purse, ctx.market.log_reimburse) {
            Err(e) => Err(e),
            Ok((state, purse)) => Ok(Extended { state, log_b, new_log, purse }),
        }
    }
}

/// Adds a settlement log that a user has brought, when the market asks for one. A request that is
/// refused changes nothing.
pub fn extend_log(state: &mut MarketState, settle_b: &mut SettleLog, ctx: &ExtendLog, account: NewAccount) -> (r: Result<
    (SettleLog, Purse),
    ErrorCode,
>)
    requires
        old(settle_b).wf(),
        ctx.market.state == ctx.state_key && old(state).settle_b == old(settle_b).key && old(state).log_rollover ==> account.has_pages(
            crate::accounts::ACCOUNTS_HEADER_SIZE as int,
            crate::accounts::SETTLE_PAGES as int,
        ),
    ensures
        final(settle_b).wf(),
        match extended(*old(state), old(settle_b).view(), *ctx, new_log_of(account)) {
            Ok(e) => r matches Ok((log, purse)) && log.wf() && log.view() == e.new_log && purse == e.purse
                && *final(state) == e.state && final(settle_b).view() == e.log_b,
            Err(e) => r == Err::<(SettleLog, Purse), ErrorCode>(e) && *final(state) == *old(state)
                && *final(settle_b) == *old(settle_b),
        },
{
    verify_matching_accounts(&ctx.market.state, &ctx.state_key)?;
    if state.settle_b != settle_b.key {
        return Err(ErrorCode::RetrySettlementAccount);
    }
    if !state.log_rollover {
        return Err(ErrorCode::RetrySettlementAccount);
    }
    let mut paid_state: MarketState = *state;
    let purse: Purse = log_reimburse(&mut paid_state, &ctx.purse, ctx.market.log_reimburse)?;
    let log_deposit_balance: u64 = paid_state.log_deposit_balance;
    let log = log_rollover(state, settle_b, &ctx.market_key, account);
    state.log_deposit_balance = log_deposit_balance;
    Ok((log, purse))
}

/// Where a settlement log stands in the chain, and how many accounts it holds.
pub fn log_status(settle: &SettleLog) -> (r: LogStatusResult)
    ensures
        r == (LogStatusResult {
            prev: settle.header.prev,
            next: settle.header.next,
            items: settle.header.items,
        }),
{
    LogStatusResult { prev: settle.header.prev, next: settle.header.next, items: settle.header.items }
}

/// The state and the neighbours of a log after it is taken out of the chain.
pub open spec fn unlinked(state: MarketState, settle: LogLink, prev: LogLink, next: LogLink) -> Result<
    (MarketState, LogLink, LogLink),
    ErrorCode,
> {
    if settle.header.items > 0 {
        Err(ErrorCode::SettlementLogNotEmpty)
    } else if settle.header.prev == Pubkey::zero() || settle.header.next == Pubkey::zero() {
        Err(ErrorCode::InvalidAccount)
    } else if settle.header.prev != prev.key || settle.header.next != next.key || prev.header.next
        != settle.key || next.header.prev != settle.key {
        Err(ErrorCode::InvalidAccount)
    } else {
        Ok(
            (
                if state.settle_a == settle.key {
                    MarketState { settle_a: next.key, settle_b: next.header.next, ..state }
                } else if state.settle_b == settle.key {
                    MarketState { settle_b: next.key, ..state }
                } else {
                    state
                },
                LogLink { header: AccountsHeader { next: next.key, ..prev.header }, ..prev },
                LogLink { header: AccountsHeader { prev: prev.key, ..next.header }, ..next },
            ),
        )
    }
}

/// Takes an empty log that is neither the first nor the last out of the chain.
pub fn log_close(state: &mut MarketState, settle: &LogLink, log_prev: &mut LogLink, log_next: &mut LogLink) -> (r: Result<
    (),
    ErrorCode,
>)
    ensures
        match unlinked(*old(state), *settle, *old(log_prev), *old(log_next)) {
            Ok((after, prev, next)) => r is Ok && *final(state) == after && *final(log_prev) == prev
                && *final(log_next) == next,
            Err(e) => r == Err::<(), ErrorCode>(e) && *final(state) == *old(state) && *final(log_prev)
                == *old(log_prev) && *final(log_next) == *old(log_next),
        },
{
    if settle.header.items > 0 {
        return Err(ErrorCode::SettlementLogNotEmpty);
    }
    let none: Pubkey = Pubkey::default();
    if settle.header.prev == none {
        return Err(ErrorCode::InvalidAccount);
    }
    if settle.header.next == none {
        return Err(ErrorCode::InvalidAccount);
    }
    verify_matching_accounts(&settle.header.prev, &log_prev.key)?;
    verify_matching_accounts(&settle.header.next, &log_next.key)?;
    verify_matching_accounts(&log_prev.header.next, &settle.key)?;
    verify_matching_accounts(&log_next.header.prev, &settle.key)?;
    log_prev.header.set_next(&log_next.key);
    log_next.header.set_prev(&log_prev.key);
    if state.settle_a == settle.key {
        state.settle_a = log_next.key;
        state.settle_b = log_next.header.next;
    } else if state.settle_b == settle.key {
        state.settle_b = log_next.key;
    }
    Ok(())
}

} // verus!
