//! Opening a market.
use crate::accounts::NewAccount;
use crate::address::{verify_vault, TokenPrograms};
use crate::exchange::Exchange;
use crate::ledger::Ledger;
use crate::market::{
    ErrorCode, Event, Market, MarketState, MintType, VERSION_MAJOR, VERSION_MINOR, VERSION_PATCH,
};
use crate::order_book::OrderBook;
use crate::pubkey::Pubkey;
use crate::records::AccountsHeader;
use crate::settlement::{LogView, SettleLog};
use crate::trade_log::TradeLog;
use vstd::prelude::*;

verus! {

/// The accounts that come with the creation of a market, but for those that hold its books.
#[derive(Clone, Copy, Debug)]
pub struct CreateMarket {
    pub market: Pubkey,
    pub state: Pubkey,
    pub agent: Pubkey,
    pub manager: Pubkey,
    pub mkt_mint: Pubkey,
    pub mkt_vault: Pubkey,
    pub prc_mint: Pubkey,
    pub prc_vault: Pubkey,
    pub programs: TokenPrograms,
    /// The program that is brought for security tokens.
    pub security_program: Option<Pubkey>,
    /// The time.
    pub now: i64,
}

/// The accounts that hold the books of a new market.
#[derive(Debug)]
pub struct MarketSpace {
    pub orders: NewAccount,
    pub trade_log: NewAccount,
    pub settle_a: NewAccount,
    pub settle_b: NewAccount,
}

/// The terms of a new market.
#[derive(Clone, Copy, Debug)]
pub struct NewMarket {
    pub agent_nonce: u8,
    pub mkt_vault_nonce: u8,
    pub prc_vault_nonce: u8,
    pub mkt_decimals: u8,
    pub prc_decimals: u8,
    pub mkt_mint_type: u8,
    pub prc_mint_type: u8,
    pub manager_withdraw: bool,
    pub manager_cancel: bool,
    pub expire_enable: bool,
    pub expire_min: i64,
    pub min_quantity: u64,
    pub taker_fee: u32,
    pub log_fee: u64,
    pub log_rebate: u64,
    pub log_reimburse: u64,
}

/// The vaults that a new market needs, by the programs that keep them.
#[derive(Clone, Copy, Debug)]
pub struct NewVaults {
    pub mkt: MintType,
    pub prc: MintType,
}

/// A market that was opened.
#[derive(Debug)]
pub struct OpenedMarket {
    pub market: Market,
    pub exchange: Exchange,
    pub vaults: NewVaults,
}

impl NewMarket {
    /// Whether one of the tokens is a security token.
    pub open spec fn needs_security_program(self) -> bool {
        MintType::spec_of(self.mkt_mint_type) == Ok::<MintType, ErrorCode>(MintType::AtxSecurityToken)
            || MintType::spec_of(self.prc_mint_type) == Ok::<MintType, ErrorCode>(
            MintType::AtxSecurityToken,
        )
    }

    /// The vaults of the market, or what is wrong with its terms: unknown programs, a wrong program
    /// for security tokens, vaults that are not those that were derived, orders that could expire
    /// at once, or no token that is not a security token.
    pub open spec fn checked(
        self,
        ctx: CreateMarket,
        mkt_vault: Option<Pubkey>,
        prc_vault: Option<Pubkey>,
    ) -> Result<NewVaults, ErrorCode> {
        match (MintType::spec_of(self.mkt_mint_type), MintType::spec_of(self.prc_mint_type)) {
            (Ok(mkt), Ok(prc)) => if self.needs_security_program() && ctx.security_program != Some(
                ctx.programs.security_token,
            ) {
                Err(ErrorCode::InvalidParameters)
            } else if mkt == MintType::SPLToken && mkt_vault != Some(ctx.mkt_vault) {
                Err(ErrorCode::InvalidDerivedAccount)
            } else if prc == MintType::SPLToken && prc_vault != Some(ctx.prc_vault) {
                Err(ErrorCode::InvalidDerivedAccount)
            } else if self.expire_min < 1 {
                Err(ErrorCode::InvalidParameters)
            } else if mkt == MintType::AtxSecurityToken && prc == MintType::AtxSecurityToken {
                Err(ErrorCode::InvalidParameters)
            } else {
                Ok(NewVaults { mkt, prc })
            },
            _ => Err(ErrorCode::InvalidParameters),
        }
    }

    /// Checks the terms of a market against the vaults that were derived for its tokens.
    pub fn check(&self, ctx: &CreateMarket, mkt_vault: &Option<Pubkey>, prc_vault: &Option<Pubkey>) -> (r: Result<
        NewVaults,
        ErrorCode,
    >)
        requires
            self.needs_security_program() ==> ctx.security_program is Some,
        ensures
            r == self.checked(*ctx, *mkt_vault, *prc_vault),
    {
        let mkt: MintType = MintType::of(self.mkt_mint_type)?;
        let prc: MintType = MintType::of(self.prc_mint_type)?;
        if mkt == MintType::AtxSecurityToken || prc == MintType::AtxSecurityToken {
            match ctx.security_program {
                Some(program) => {
                    if program != ctx.programs.security_token {
                        return Err(ErrorCode::InvalidParameters);
                    }
                },
                None => {
                    return Err(ErrorCode::InvalidParameters);
                },
            }
        }
        if mkt == MintType::SPLToken {
            verify_vault(mkt_vault, &ctx.mkt_vault)?;
        }
        if prc == MintType::SPLToken {
            verify_vault(prc_vault, &ctx.prc_vault)?;
        }
        if self.expire_min < 1 {
            return Err(ErrorCode::InvalidParameters);
        }
        if mkt == MintType::AtxSecurityToken && prc == MintType::AtxSecurityToken {
            return Err(ErrorCode::InvalidParameters);
        }
        Ok(NewVaults { mkt, prc })
    }

    /// The market with these terms.
    pub open spec fn spec_market(self, ctx: CreateMarket, orders: Pubkey, trade_log: Pubkey, settle_0: Pubkey) -> Market {
        Market {
            active: true,
            manager_withdraw: self.manager_withdraw,
            manager_cancel: self.manager_cancel,
            expire_enable: self.expire_enable,
            expire_min: self.expire_min,
            min_quantity: self.min_quantity,
            log_fee: self.log_fee,
            log_rebate: self.log_rebate,
            log_reimburse: self.log_reimburse,
            taker_fee: self.taker_fee,
            state: ctx.state,
            trade_log,
            agent: ctx.agent,
            agent_nonce: self.agent_nonce,
            manager: ctx.manager,
            mkt_mint: ctx.mkt_mint,
            mkt_vault: ctx.mkt_vault,
            mkt_nonce: self.mkt_vault_nonce,
            mkt_decimals: self.mkt_decimals,
            mkt_mint_type: self.mkt_mint_type,
            prc_mint: ctx.prc_mint,
            prc_vault: ctx.prc_vault,
            prc_nonce: self.prc_vault_nonce,
            prc_decimals: self.prc_decimals,
            prc_mint_type: self.prc_mint_type,
            orders,
            settle_0,
        }
    }

    /// The market with these terms.
    fn market(&self, ctx: &CreateMarket, space: &MarketSpace) -> (r: Market)
        ensures
            r == self.spec_market(*ctx, space.orders.key, space.trade_log.key, space.settle_a.key),
    {
        Market {
            active: true,
            manager_withdraw: self.manager_withdraw,
            manager_cancel: self.manager_cancel,
            expire_enable: self.expire_enable,
            expire_min: self.expire_min,
            min_quantity: self.min_quantity,
            log_fee: self.log_fee,
            log_rebate: self.log_rebate,
            log_reimburse: self.log_reimburse,
            taker_fee: self.taker_fee,
            state: ctx.state,
            trade_log: space.trade_log.key,
            agent: ctx.agent,
            agent_nonce: self.agent_nonce,
            manager: ctx.manager,
            mkt_mint: ctx.mkt_mint,
            mkt_vault: ctx.mkt_vault,
            mkt_nonce: self.mkt_vault_nonce,
            mkt_decimals: self.mkt_decimals,
            mkt_mint_type: self.mkt_mint_type,
            prc_mint: ctx.prc_mint,
            prc_vault: ctx.prc_vault,
            prc_nonce: self.prc_vault_nonce,
            prc_decimals: self.prc_decimals,
            prc_mint_type: self.prc_mint_type,
            orders: space.orders.key,
            settle_0: space.settle_a.key,
        }
    }
}

impl MarketSpace {
    /// Whether the accounts have the pages that the books need.
    pub open spec fn is_enough(self) -> bool {
        &&& self.orders.has_pages(0, crate::accounts::ORDER_PAGES as int)
        &&& self.trade_log.has_pages(0, crate::accounts::TRADE_PAGES as int)
        &&& self.settle_a.has_pages(
            crate::accounts::ACCOUNTS_HEADER_SIZE as int,
            crate::accounts::SETTLE_PAGES as int,
        )
        &&& self.settle_b.has_pages(
            crate::accounts::ACCOUNTS_HEADER_SIZE as int,
            crate::accounts::SETTLE_PAGES as int,
        )
    }
}

/// The state of a market that has just been opened.
pub open spec fn first_state(settle_a: Pubkey, settle_b: Pubkey, now: i64) -> MarketState {
    MarketState {
        settle_a,
        settle_b,
        log_rollover: false,
        log_deposit_balance: 0,
        action_counter: 0,
        trade_counter: 0,
        order_counter: 0,
        active_bid: 0,
        active_ask: 0,
        mkt_vault_balance: 0,
        mkt_order_balance: 0,
        mkt_user_vault_balance: 0,
        mkt_log_balance: 0,
        prc_vault_balance: 0,
        prc_order_balance: 0,
        prc_user_vault_balance: 0,
        prc_log_balance: 0,
        prc_fees_balance: 0,
        last_ts: now,
        last_price: 0,
    }
}

/// Whether a ledger is that of a market that has just been opened: no orders, trades, accounts or
/// tokens, and two settlement logs that are linked with one another.
pub open spec fn is_new(ledger: Ledger, ctx: CreateMarket, space: MarketSpace) -> bool {
    &&& ledger.state == first_state(space.settle_a.key, space.settle_b.key, ctx.now)
    &&& ledger.orders_key == space.orders.key
    &&& ledger.trade_log_key == space.trade_log.key
    &&& ledger.bids == Map::<u128, crate::shelf::Kept<crate::records::Order>>::empty()
    &&& ledger.asks == Map::<u128, crate::shelf::Kept<crate::records::Order>>::empty()
    &&& ledger.bid_slots == crate::market::MAX_ORDERS
    &&& ledger.ask_slots == crate::market::MAX_ORDERS
    &&& ledger.trades.count == 0
    &&& ledger.trades.max == crate::market::MAX_TRADES
    &&& ledger.trades.entries.len() == crate::market::MAX_TRADES
    &&& ledger.log_a == (LogView {
        key: space.settle_a.key,
        header: AccountsHeader {
            market: ctx.market,
            prev: Pubkey::zero(),
            next: space.settle_b.key,
            items: 0,
        },
        entries: Map::empty(),
        slots: crate::log_chain::new_log_of(space.settle_a).1,
    })
    &&& ledger.log_b == (LogView {
        key: space.settle_b.key,
        header: AccountsHeader {
            market: ctx.market,
            prev: space.settle_a.key,
            next: Pubkey::zero(),
            items: 0,
        },
        entries: Map::empty(),
        slots: crate::log_chain::new_log_of(space.settle_b).1,
    })
    &&& ledger.events == Seq::<Event>::empty()
}

/// Opens a market with empty books.
fn open_market(ctx: &CreateMarket, space: MarketSpace) -> (r: Exchange)
    requires
        space.is_enough(),
    ensures
        r.wf(),
        is_new(r.ledger(), *ctx, space),
{
    let settle_a: Pubkey = space.settle_a.key;
    let settle_b: Pubkey = space.settle_b.key;
    let none: Pubkey = Pubkey::default();
    let state = MarketState {
        settle_a,
        settle_b,
        log_rollover: false,
        log_deposit_balance: 0,
        action_counter: 0,
        trade_counter: 0,
        order_counter: 0,
        active_bid: 0,
        active_ask: 0,
        mkt_vault_balance: 0,
        mkt_order_balance: 0,
        mkt_user_vault_balance: 0,
        mkt_log_balance: 0,
        prc_vault_balance: 0,
        prc_order_balance: 0,
        prc_user_vault_balance: 0,
        prc_log_balance: 0,
        prc_fees_balance: 0,
        last_ts: ctx.now,
        last_price: 0,
    };
    let r = Exchange {
        state,
        orders: OrderBook::create(space.orders),
        trade_log: TradeLog::create(space.trade_log),
        settle_a: SettleLog::create(space.settle_a, &ctx.market, &none, &settle_b),
        settle_b: SettleLog::create(space.settle_b, &ctx.market, &settle_a, &none),
        events: Vec::new(),
    };
    assert(r.ledger().events =~= Seq::<Event>::empty());
    r
}

/// Opens a market, if its terms are in order and its vaults are the accounts of its agent for the
/// tokens.
pub fn create_market(ctx: &CreateMarket, terms: &NewMarket, space: MarketSpace) -> (r: Result<
    OpenedMarket,
    ErrorCode,
>)
    requires
        space.is_enough(),
        terms.needs_security_program() ==> ctx.security_program is Some,
    ensures
        match terms.checked(
            *ctx,
            ctx.programs.spec_associated(ctx.agent, ctx.mkt_mint, terms.mkt_vault_nonce),
            ctx.programs.spec_associated(ctx.agent, ctx.prc_mint, terms.prc_vault_nonce),
        ) {
            Err(e) => r == Err::<OpenedMarket, ErrorCode>(e),
            Ok(vaults) => r matches Ok(opened) && opened.vaults == vaults && opened.market
                == terms.spec_market(*ctx, space.orders.key, space.trade_log.key, space.settle_a.key)
                && opened.exchange.wf() && is_new(opened.exchange.ledger(), *ctx, space),
        },
{
    let mkt_vault: Option<Pubkey> = ctx.programs.associated(
        &ctx.agent,
        &ctx.mkt_mint,
        terms.mkt_vault_nonce,
    );
    let prc_vault: Option<Pubkey> = ctx.programs.associated(
        &ctx.agent,
        &ctx.prc_mint,
        terms.prc_vault_nonce,
    );
    let vaults: NewVaults = terms.check(ctx, &mkt_vault, &prc_vault)?;
    let market: Market = terms.market(ctx, &space);
    let exchange: Exchange = open_market(ctx, space);
    Ok(OpenedMarket { market, exchange, vaults })
}

/// What is published of the program.
#[derive(Debug)]
pub struct ProgramMetadata {
    pub semvar_major: u32,
    pub semvar_minor: u32,
    pub semvar_patch: u32,
    pub program: Pubkey,
    pub program_name: String,
    pub developer_name: String,
    pub developer_url: String,
    pub source_url: String,
    pub verify_url: String,
}

/// The accounts that come with new metadata.
#[derive(Clone, Copy, Debug)]
pub struct UpdateMetadata {
    pub program: Pubkey,
}

/// The metadata of this version of the program.
pub fn store_metadata(
    ctx: &UpdateMetadata,
    inp_program_name: String,
    inp_developer_name: String,
    inp_developer_url: String,
    inp_source_url: String,
    inp_verify_url: String,
) -> (r: ProgramMetadata)
    ensures
        r.semvar_major == VERSION_MAJOR,
        r.semvar_minor == VERSION_MINOR,
        r.semvar_patch == VERSION_PATCH,
        r.program == ctx.program,
        r.program_name@ == inp_program_name@,
        r.developer_name@ == inp_developer_name@,
        r.developer_url@ == inp_developer_url@,
        r.source_url@ == inp_source_url@,
        r.verify_url@ == inp_verify_url@,
{
    ProgramMetadata {
        semvar_major: VERSION_MAJOR,
        semvar_minor: VERSION_MINOR,
        semvar_patch: VERSION_PATCH,
        program: ctx.program,
        program_name: inp_program_name,
        developer_name: inp_developer_name,
        developer_url: inp_developer_url,
        source_url: inp_source_url,
        verify_url: inp_verify_url,
    }
}

} // verus!
