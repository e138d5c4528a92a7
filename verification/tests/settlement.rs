use aqua_dex::accounts::NewAccount;
use aqua_dex::cancel::{expire_order, manager_cancel_order, Books, ExpireOrder, ManagerCancelOrder};
use aqua_dex::context::Purse;
use aqua_dex::log_chain::{extend_log, log_close, log_status, ExtendLog, LogLink};
use aqua_dex::manager::{
    manager_transfer_sol, manager_update_market, manager_withdraw_fees, ManagerTransferSol, ManagerUpdateMarket,
    ManagerWithdrawFees, MarketTerms,
};
use aqua_dex::market::{ErrorCode, Event, Market, MarketState, Side, UserVault};
use aqua_dex::order_book::OrderBook;
use aqua_dex::pubkey::Pubkey;
use aqua_dex::records::{AccountsHeader, Order};
use aqua_dex::settlement::{owner_key, SettleLog};
use aqua_dex::vault::{
    close_vault, create_vault, manager_vault_withdraw, vault_deposit, vault_withdraw, CloseVault, CreateVault,
    ManagerVaultWithdraw, VaultDeposit, VaultWithdraw,
};
use aqua_dex::withdraw::{manager_withdraw, withdraw, LogNeighbours, ManagerWithdraw, Withdraw};

fn key(n: u8) -> Pubkey {
    Pubkey::new([n; 32])
}

fn space(n: u8, head: usize, pages: usize) -> NewAccount {
    NewAccount { key: key(n), address: 65536, data: vec![0u8; head + 226 + 16384 * pages] }
}

fn err<T>(r: Result<T, ErrorCode>) -> ErrorCode {
    match r {
        Ok(_) => panic!("not refused"),
        Err(e) => e,
    }
}

fn market() -> Market {
    Market {
        active: true,
        manager_withdraw: true,
        manager_cancel: true,
        expire_enable: true,
        expire_min: 60,
        min_quantity: 10,
        log_fee: 7,
        log_rebate: 5,
        log_reimburse: 3,
        taker_fee: 100_000,
        state: key(2),
        trade_log: key(11),
        agent: key(3),
        agent_nonce: 9,
        manager: key(4),
        mkt_mint: key(5),
        mkt_vault: key(7),
        mkt_nonce: 1,
        mkt_decimals: 2,
        mkt_mint_type: 0,
        prc_mint: key(6),
        prc_vault: key(8),
        prc_nonce: 1,
        prc_decimals: 2,
        prc_mint_type: 1,
        orders: key(10),
        settle_0: key(12),
    }
}

fn state() -> MarketState {
    MarketState {
        settle_a: key(12),
        settle_b: key(13),
        log_rollover: false,
        log_deposit_balance: 100,
        action_counter: 40,
        trade_counter: 0,
        order_counter: 5,
        active_bid: 1,
        active_ask: 1,
        mkt_vault_balance: 1000,
        mkt_order_balance: 300,
        mkt_user_vault_balance: 100,
        mkt_log_balance: 600,
        prc_vault_balance: 2000,
        prc_order_balance: 500,
        prc_user_vault_balance: 400,
        prc_log_balance: 1000,
        prc_fees_balance: 100,
        last_ts: 0,
        last_price: 0,
    }
}

fn log(n: u8, prev: u8, next: u8) -> SettleLog {
    SettleLog::create(space(n, 100, 6), &key(1), &key(prev), &key(next))
}

fn link(n: u8, prev: u8, next: u8) -> LogLink {
    LogLink { key: key(n), header: AccountsHeader { market: key(1), prev: key(prev), next: key(next), items: 4 } }
}

fn around() -> LogNeighbours {
    LogNeighbours { lamports: 50, prev: link(14, 0, 12), next: link(13, 12, 0) }
}

fn withdrawal() -> Withdraw {
    Withdraw {
        market_key: key(1),
        market: market(),
        state_key: key(2),
        agent: key(3),
        owner: key(31),
        user_mkt_token: key(60),
        user_prc_token: key(61),
        mkt_vault: key(7),
        prc_vault: key(8),
        result: key(31),
        purse: Purse { user_lamports: 1, state_lamports: 500 },
    }
}

fn filled_log() -> SettleLog {
    let mut settle = log(12, 14, 13);
    assert_eq!(settle.settle_account(owner_key(&key(31)), &key(31), true, 60, 7), Ok(60));
    assert_eq!(settle.settle_account(owner_key(&key(31)), &key(31), false, 80, 8), Ok(80));
    assert_eq!(settle.settle_account(owner_key(&key(31)), &key(31), true, 40, 9), Ok(100));
    settle
}

#[test]
fn settled_tokens_add_up() {
    let settle = filled_log();
    let (leaf, account) = settle.account(owner_key(&key(31))).unwrap();
    assert_eq!(leaf.owner(), key(31));
    assert_eq!(account.mkt_token_balance(), 100);
    assert_eq!(account.prc_token_balance(), 80);
    assert_eq!(account.ts_updated(), 7);
    assert_eq!(settle.header.items, 1);
    assert!(settle.account(owner_key(&key(32))).is_none());
}

#[test]
fn account_overflow_is_refused() {
    let mut settle = filled_log();
    let r = settle.settle_account(owner_key(&key(31)), &key(31), true, u64::MAX, 7);
    assert_eq!(r, Err(ErrorCode::Overflow));
    assert_eq!(settle.account(owner_key(&key(31))).unwrap().1.mkt_token_balance(), 100);
    assert_eq!(settle.close_account(owner_key(&key(32))), Err(ErrorCode::RecordNotFound));
    assert_eq!(settle.close_account(owner_key(&key(31))), Ok(()));
    assert_eq!(settle.header.items, 0);
}

#[test]
fn log_fills_up() {
    let mut settle = log(12, 14, 13);
    for i in 0..682u128 {
        assert!(settle.has_room());
        assert_eq!(settle.settle_account(i * 977, &key(31), true, 1, 7), Ok(1));
    }
    assert!(!settle.has_room());
    assert_eq!(settle.settle_account(5, &key(31), true, 1, 7), Err(ErrorCode::SettlementLogFull));
    assert_eq!(settle.settle_account(977, &key(31), true, 1, 7), Ok(2));
    assert_eq!(settle.close_account(977), Ok(()));
    assert_eq!(settle.settle_account(5, &key(31), true, 1, 7), Ok(1));
    assert_eq!(settle.header.items, 682);
}

#[test]
fn larger_log_holds_more() {
    let mut settle = SettleLog::create(space(12, 100, 8), &key(1), &key(14), &key(13));
    for i in 0..750u128 {
        assert_eq!(settle.settle_account(i * 977, &key(31), true, 1, 7), Ok(1));
    }
    assert_eq!(settle.settle_account(5, &key(31), true, 1, 7), Err(ErrorCode::SettlementLogFull));
}

#[test]
fn log_is_read_back_from_its_bytes() {
    let settle = filled_log();
    let mut bytes = settle.store();
    assert_eq!(bytes.len(), 100 + 226 + 16384 * 6);
    bytes.extend_from_slice(&[7u8; 100]);
    let back = SettleLog::load(&key(12), &bytes, 8);
    assert_eq!(back.header.prev, key(14));
    assert_eq!(back.header.items, 1);
    assert_eq!(back.account(owner_key(&key(31))).unwrap().1.mkt_token_balance(), 100);
}

#[test]
fn withdraw_pays_everything_once() {
    let (mut s, mut settle, mut near) = (state(), filled_log(), around());
    settle.settle_account(owner_key(&key(32)), &key(32), true, 1, 7).unwrap();
    let mut ctx = withdrawal();
    let out = withdraw(&mut s, &mut settle, &mut near, &ctx).unwrap();
    assert_eq!(out.result.mkt_tokens, 100);
    assert_eq!(out.result.prc_tokens, 80);
    assert_eq!(out.mkt_payout.unwrap().amount, 100);
    assert_eq!(out.prc_payout.unwrap().amount, 80);
    assert!(!out.store_result);
    assert_eq!(out.purse.user_lamports, 6);
    assert_eq!(out.purse.state_lamports, 495);
    assert_eq!(out.event.event_type, 206836899720010235937021599972903459637);
    assert_eq!(out.event.action_id, 41);
    assert_eq!(s.mkt_log_balance, 500);
    assert_eq!(s.mkt_vault_balance, 900);
    assert_eq!(s.prc_log_balance, 920);
    assert_eq!(s.prc_vault_balance, 1920);
    assert_eq!(s.log_deposit_balance, 95);
    assert_eq!(settle.header.items, 1);
    assert_eq!(near.lamports, 50);
    assert_eq!(err(withdraw(&mut s, &mut settle, &mut near, &ctx)), ErrorCode::AccountNotFound);
    ctx.agent = key(99);
    assert_eq!(err(withdraw(&mut s, &mut settle, &mut near, &ctx)), ErrorCode::InvalidAccount);
    ctx.agent = key(3);
    ctx.market_key = key(99);
    assert_eq!(err(withdraw(&mut s, &mut settle, &mut near, &ctx)), ErrorCode::InvalidAccount);
}

#[test]
fn empty_log_leaves_the_chain() {
    let (mut s, mut settle, mut near) = (state(), filled_log(), around());
    let out = withdraw(&mut s, &mut settle, &mut near, &withdrawal()).unwrap();
    assert_eq!(near.lamports, 0);
    assert_eq!(near.prev.header.next, key(13));
    assert_eq!(near.next.header.prev, key(14));
    assert_eq!(s.settle_a, key(13));
    assert_eq!(s.settle_b, key(0));
    assert_eq!(out.purse.state_lamports, 545);
    assert_eq!(s.log_deposit_balance, 145);
}

#[test]
fn refused_withdrawal_changes_nothing() {
    let (mut s, mut settle, mut near) = (state(), filled_log(), around());
    near.prev.header.next = key(99);
    assert_eq!(err(withdraw(&mut s, &mut settle, &mut near, &withdrawal())), ErrorCode::InvalidAccount);
    let mut ctx = withdrawal();
    ctx.market.prc_mint_type = 2;
    assert_eq!(err(withdraw(&mut s, &mut settle, &mut near, &ctx)), ErrorCode::InvalidParameters);
    let mut ctx = withdrawal();
    ctx.purse.state_lamports = 4;
    assert_eq!(err(withdraw(&mut s, &mut settle, &mut near, &ctx)), ErrorCode::Overflow);
    assert_eq!(s.action_counter, 40);
    assert_eq!(s.mkt_vault_balance, 1000);
    assert_eq!(settle.header.items, 1);
    assert_eq!(settle.account(owner_key(&key(31))).unwrap().1.mkt_token_balance(), 100);
}

#[test]
fn manager_withdraws_for_an_owner() {
    let (mut s, mut settle, mut near) = (state(), filled_log(), around());
    near.lamports = 0;
    let w = withdrawal();
    let mut ctx = ManagerWithdraw {
        market_key: w.market_key,
        market: w.market,
        state_key: w.state_key,
        agent: w.agent,
        manager: key(99),
        owner: w.owner,
        user_mkt_token: w.user_mkt_token,
        user_prc_token: w.user_prc_token,
        mkt_vault: w.mkt_vault,
        prc_vault: w.prc_vault,
        result: key(70),
        purse: w.purse,
    };
    assert_eq!(err(manager_withdraw(&mut s, &mut settle, &mut near, &ctx)), ErrorCode::AccessDenied);
    ctx.manager = key(4);
    ctx.market.manager_withdraw = false;
    assert_eq!(err(manager_withdraw(&mut s, &mut settle, &mut near, &ctx)), ErrorCode::AccessDenied);
    ctx.market.manager_withdraw = true;
    let out = manager_withdraw(&mut s, &mut settle, &mut near, &ctx).unwrap();
    assert!(out.store_result && out.event.manager);
    assert_eq!(out.event.user, key(4));
    assert_eq!(out.event.owner, key(31));
    assert_eq!(out.event.event_type, 246174444212986798995680456134066592430);
    assert_eq!(out.purse.user_lamports, 1);
    assert_eq!(s.log_deposit_balance, 100);
}

fn books() -> Books {
    let mut orders = OrderBook::create(space(10, 0, 6));
    let bid = Order { amount: 250, expiry: 500 };
    let ask = Order { amount: 300, expiry: 0 };
    orders.post(Side::Bid, (40u128 << 64) | 9, &key(31), &bid, None);
    orders.post(Side::Ask, (50u128 << 64) | 3, &key(32), &ask, None);
    Books { state: state(), orders, settle_a: log(12, 0, 13), settle_b: log(13, 12, 0), events: Vec::new() }
}

#[test]
fn manager_cancels_to_the_log() {
    let mut b = books();
    let mut ctx = ManagerCancelOrder {
        market_key: key(1),
        market: market(),
        state_key: key(2),
        manager: key(4),
        result: key(70),
        now: 77,
        purse: Purse { user_lamports: 1, state_lamports: 2 },
    };
    let id = (50u128 << 64) | 3;
    ctx.market.manager_cancel = false;
    assert_eq!(err(manager_cancel_order(&mut b, &ctx, 1, id, false, None)), ErrorCode::AccessDenied);
    ctx.market.manager_cancel = true;
    ctx.manager = key(5);
    assert_eq!(err(manager_cancel_order(&mut b, &ctx, 1, id, false, None)), ErrorCode::AccessDenied);
    ctx.manager = key(4);
    assert_eq!(err(manager_cancel_order(&mut b, &ctx, 2, id, false, None)), ErrorCode::InvalidParameters);
    assert_eq!(err(manager_cancel_order(&mut b, &ctx, 0, id, false, None)), ErrorCode::OrderNotFound);
    let r = manager_cancel_order(&mut b, &ctx, 1, id, true, Some(space(15, 100, 6)));
    assert_eq!(err(r), ErrorCode::RetrySettlementAccount);
    assert_eq!(err(manager_cancel_order(&mut b, &ctx, 1, id, true, None)), ErrorCode::RetrySettlementAccount);
    let out = manager_cancel_order(&mut b, &ctx, 1, id, false, None).unwrap();
    assert_eq!(out.result.mkt_tokens, 300);
    assert!(out.store_result);
    assert_eq!(b.state.mkt_order_balance, 0);
    assert_eq!(b.state.mkt_log_balance, 900);
    assert_eq!(b.state.active_ask, 0);
    assert_eq!(b.settle_a.account(owner_key(&key(32))).unwrap().1.mkt_token_balance(), 300);
    assert!(b.orders.get(Side::Ask, id).is_none());
    assert!(matches!(b.events[1], Event::Cancel(e) if e.manager && e.owner == key(32) && e.user == key(4)));
}

#[test]
fn expired_order_is_removed_by_anyone() {
    let mut b = books();
    let mut ctx =
        ExpireOrder { market_key: key(1), market: market(), now: 499, purse: Purse { user_lamports: 1, state_lamports: 9 } };
    let id = (40u128 << 64) | 9;
    let out = expire_order(&mut b, &ctx, 0, id, false, None).unwrap();
    assert_eq!(out.result.prc_tokens, 0);
    assert!(b.orders.get(Side::Bid, id).is_some());
    assert_eq!(b.state.action_counter, 40);
    ctx.now = 500;
    assert_eq!(err(expire_order(&mut b, &ctx, 0, id, true, None)), ErrorCode::RetrySettlementAccount);
    let out = expire_order(&mut b, &ctx, 0, id, false, None).unwrap();
    assert_eq!(out.result.prc_tokens, 100);
    assert_eq!(b.state.action_counter, 41);
    assert_eq!(b.state.prc_order_balance, 400);
    assert_eq!(b.state.prc_log_balance, 1100);
    assert_eq!(b.state.active_bid, 0);
    assert!(b.orders.get(Side::Bid, id).is_none());
    assert_eq!(err(expire_order(&mut b, &ctx, 0, id, false, None)), ErrorCode::OrderNotFound);
    let id = (50u128 << 64) | 3;
    expire_order(&mut b, &ctx, 1, id, false, None).unwrap();
    assert!(b.orders.get(Side::Ask, id).is_some());
    b.state.settle_a = key(99);
    assert_eq!(err(expire_order(&mut b, &ctx, 1, id, false, None)), ErrorCode::RetrySettlementAccount);
}

#[test]
fn expire_with_rollover_pays_for_the_log() {
    let mut b = books();
    b.state.log_rollover = true;
    let ctx =
        ExpireOrder { market_key: key(1), market: market(), now: 500, purse: Purse { user_lamports: 1, state_lamports: 9 } };
    let out = expire_order(&mut b, &ctx, 0, (40u128 << 64) | 9, true, Some(space(15, 100, 6))).unwrap();
    assert_eq!(out.purse.user_lamports, 4);
    assert_eq!(out.purse.state_lamports, 6);
    assert_eq!(out.new_log.unwrap().header.prev, key(13));
    assert_eq!(b.state.settle_a, key(13));
    assert_eq!(b.state.settle_b, key(15));
    assert_eq!(b.state.log_deposit_balance, 97);
}

#[test]
fn log_is_added_only_when_asked_for() {
    let mut s = state();
    let mut last = log(13, 12, 0);
    let ctx = ExtendLog {
        market_key: key(1),
        market: market(),
        state_key: key(2),
        purse: Purse { user_lamports: 1, state_lamports: 9 },
    };
    let r = extend_log(&mut s, &mut last, &ctx, space(15, 100, 1));
    assert_eq!(err(r), ErrorCode::RetrySettlementAccount);
    s.log_rollover = true;
    let (added, purse) = extend_log(&mut s, &mut last, &ctx, space(15, 100, 6)).unwrap();
    assert_eq!(purse.user_lamports, 4);
    assert_eq!(last.header.next, key(15));
    let status = log_status(&added);
    assert_eq!(status.prev, key(13));
    assert_eq!(status.next, key(0));
    assert_eq!(status.items, 0);
    assert!(!s.log_rollover);
}

#[test]
fn only_empty_logs_in_the_middle_are_closed() {
    let mut s = state();
    let (mut prev, mut next) = (link(14, 0, 12), link(13, 12, 20));
    let full = link(12, 14, 13);
    assert_eq!(err(log_close(&mut s, &full, &mut prev, &mut next)), ErrorCode::SettlementLogNotEmpty);
    let mut empty = full;
    empty.header.items = 0;
    let mut first = empty;
    first.header.prev = key(0);
    assert_eq!(err(log_close(&mut s, &first, &mut prev, &mut next)), ErrorCode::InvalidAccount);
    let mut last = empty;
    last.header.next = key(0);
    assert_eq!(err(log_close(&mut s, &last, &mut prev, &mut next)), ErrorCode::InvalidAccount);
    log_close(&mut s, &empty, &mut prev, &mut next).unwrap();
    assert_eq!(prev.header.next, key(13));
    assert_eq!(next.header.prev, key(14));
    assert_eq!(s.settle_a, key(13));
    assert_eq!(s.settle_b, key(20));
}

#[test]
fn vault_is_set_up_once() {
    let mut vault =
        UserVault { initialized: false, market: key(0), owner: key(0), mkt_tokens: 9, prc_tokens: 9 };
    let mut ctx = CreateVault { market_key: key(1), market: market(), manager: key(99), owner: key(31) };
    assert_eq!(err(create_vault(&mut vault, &ctx)), ErrorCode::AccessDenied);
    ctx.manager = key(4);
    create_vault(&mut vault, &ctx).unwrap();
    assert!(vault.initialized);
    assert_eq!(vault.owner, key(31));
    assert_eq!(vault.mkt_tokens, 0);
    vault.mkt_tokens = 5;
    ctx.owner = key(32);
    create_vault(&mut vault, &ctx).unwrap();
    assert_eq!(vault.owner, key(31));
    assert_eq!(vault.mkt_tokens, 5);
    let close = CloseVault { market: market(), manager: key(4) };
    assert_eq!(close_vault(&vault, &close), Err(ErrorCode::VaultNotEmpty));
    vault.mkt_tokens = 0;
    assert_eq!(close_vault(&vault, &close), Ok(()));
    assert_eq!(close_vault(&vault, &CloseVault { market: market(), manager: key(5) }), Err(ErrorCode::AccessDenied));
}

#[test]
fn vault_gives_back_what_went_in() {
    let (mut s, mut settle, mut near) = (state(), filled_log(), around());
    let mut vault = UserVault { initialized: true, market: key(1), owner: key(31), mkt_tokens: 5, prc_tokens: 0 };
    let mut deposit = VaultDeposit {
        market_key: key(1),
        market: market(),
        state_key: key(2),
        vault_key: key(80),
        manager: key(99),
        owner: key(31),
        state_lamports: 500,
    };
    assert_eq!(err(vault_deposit(&mut s, &mut vault, &mut settle, &mut near, &deposit)), ErrorCode::AccessDenied);
    deposit.manager = key(4);
    let out = vault_deposit(&mut s, &mut vault, &mut settle, &mut near, &deposit).unwrap();
    assert_eq!(out.state_lamports, 550);
    let event = out.event.unwrap();
    assert_eq!(event.market_tokens, 100);
    assert_eq!(event.market_balance, 105);
    assert_eq!(event.pricing_balance, 80);
    assert_eq!(vault.mkt_tokens, 105);
    assert_eq!(vault.prc_tokens, 80);
    assert_eq!(s.mkt_log_balance, 500);
    assert_eq!(s.mkt_user_vault_balance, 200);
    assert_eq!(s.prc_user_vault_balance, 480);
    assert_eq!(s.mkt_vault_balance, 1000);
    assert_eq!(err(vault_deposit(&mut s, &mut vault, &mut settle, &mut near, &deposit)), ErrorCode::AccountNotFound);
    let mut take = VaultWithdraw {
        market_key: key(1),
        market: market(),
        state_key: key(2),
        vault_key: key(80),
        agent: key(3),
        owner: key(32),
        user_mkt_token: key(60),
        user_prc_token: key(61),
        mkt_vault: key(7),
        prc_vault: key(8),
        vault_lamports: 11,
        state_lamports: 550,
    };
    assert_eq!(err(vault_withdraw(&mut s, &mut vault, &take)), ErrorCode::AccessDenied);
    take.owner = key(31);
    let out = vault_withdraw(&mut s, &mut vault, &take).unwrap();
    assert_eq!(out.mkt_payout.unwrap().amount, 105);
    assert_eq!(out.prc_payout.unwrap().amount, 80);
    assert_eq!(out.vault_lamports, 0);
    assert_eq!(out.state_lamports, 561);
    assert_eq!(vault.mkt_tokens, 0);
    assert_eq!(vault.prc_tokens, 0);
    assert_eq!(s.mkt_vault_balance, 895);
    assert_eq!(s.mkt_user_vault_balance, 95);
    let again = vault_withdraw(&mut s, &mut vault, &take).unwrap();
    assert!(again.event.is_none() && again.mkt_payout.is_none());
    assert_eq!(again.vault_lamports, 11);
}

#[test]
fn manager_empties_a_vault() {
    let mut s = state();
    let mut vault = UserVault { initialized: true, market: key(1), owner: key(31), mkt_tokens: 5, prc_tokens: 0 };
    let mut ctx = ManagerVaultWithdraw {
        manager: key(99),
        accounts: VaultWithdraw {
            market_key: key(1),
            market: market(),
            state_key: key(2),
            vault_key: key(80),
            agent: key(3),
            owner: key(31),
            user_mkt_token: key(60),
            user_prc_token: key(61),
            mkt_vault: key(7),
            prc_vault: key(8),
            vault_lamports: 11,
            state_lamports: 550,
        },
    };
    assert_eq!(err(manager_vault_withdraw(&mut s, &mut vault, &ctx)), ErrorCode::AccessDenied);
    ctx.manager = key(4);
    let out = manager_vault_withdraw(&mut s, &mut vault, &ctx).unwrap();
    assert_eq!(out.mkt_payout.unwrap().amount, 5);
    assert!(out.prc_payout.is_none());
    let event = out.event.unwrap();
    assert!(event.manager);
    assert_eq!(event.user, key(4));
    assert_eq!(event.event_type, 155648231829618734246883800498177854177);
}

#[test]
fn manager_moves_lamports() {
    let mut s = state();
    let mut ctx = ManagerTransferSol {
        market: market(),
        state_key: key(2),
        manager: key(4),
        purse: Purse { user_lamports: 10, state_lamports: 500 },
    };
    let purse = manager_transfer_sol(&mut s, &ctx, false, false, 4).unwrap();
    assert_eq!((purse.user_lamports, purse.state_lamports, s.log_deposit_balance), (6, 504, 104));
    let purse = manager_transfer_sol(&mut s, &ctx, true, false, 4).unwrap();
    assert_eq!((purse.user_lamports, purse.state_lamports, s.log_deposit_balance), (14, 496, 100));
    let purse = manager_transfer_sol(&mut s, &ctx, true, true, 1).unwrap();
    assert_eq!((purse.user_lamports, purse.state_lamports, s.log_deposit_balance), (110, 400, 0));
    assert_eq!(err(manager_transfer_sol(&mut s, &ctx, true, false, 1)), ErrorCode::Overflow);
    assert_eq!(err(manager_transfer_sol(&mut s, &ctx, false, false, 11)), ErrorCode::Overflow);
    ctx.state_key = key(99);
    assert_eq!(err(manager_transfer_sol(&mut s, &ctx, false, false, 1)), ErrorCode::InvalidAccount);
    ctx.manager = key(99);
    assert_eq!(err(manager_transfer_sol(&mut s, &ctx, false, false, 1)), ErrorCode::AccessDenied);
}

#[test]
fn manager_takes_the_fees() {
    let mut s = state();
    let mut ctx = ManagerWithdrawFees {
        market_key: key(1),
        market: market(),
        state_key: key(2),
        agent: key(3),
        manager: key(4),
        manager_prc_token: key(62),
        prc_vault: key(8),
    };
    let out = manager_withdraw_fees(&mut s, &ctx).unwrap();
    assert_eq!(out.fee_tokens, 100);
    assert_eq!(out.payout.unwrap().amount, 100);
    assert_eq!(out.event.unwrap().pricing_account, key(62));
    assert_eq!(s.prc_fees_balance, 0);
    assert_eq!(s.prc_vault_balance, 1900);
    assert_eq!(s.action_counter, 41);
    let out = manager_withdraw_fees(&mut s, &ctx).unwrap();
    assert_eq!(out.fee_tokens, 0);
    assert!(out.payout.is_none() && out.event.is_none());
    assert_eq!(s.action_counter, 41);
    s.prc_fees_balance = 1901;
    assert_eq!(err(manager_withdraw_fees(&mut s, &ctx)), ErrorCode::Overflow);
    assert_eq!((s.prc_fees_balance, s.prc_vault_balance, s.action_counter), (1901, 1900, 41));
    ctx.manager = key(99);
    assert_eq!(err(manager_withdraw_fees(&mut s, &ctx)), ErrorCode::AccessDenied);
}

#[test]
fn manager_changes_the_terms() {
    let mut m = market();
    let terms = MarketTerms {
        active: false,
        expire_enable: false,
        expire_min: 1,
        min_quantity: 2,
        taker_fee: 3,
        log_fee: 4,
        log_rebate: 5,
        log_reimburse: 6,
    };
    assert_eq!(err(manager_update_market(&mut m, &ManagerUpdateMarket { manager: key(5) }, &terms)), ErrorCode::AccessDenied);
    assert!(m.active);
    manager_update_market(&mut m, &ManagerUpdateMarket { manager: key(4) }, &terms).unwrap();
    assert!(!m.active && !m.expire_enable);
    assert_eq!((m.expire_min, m.min_quantity, m.taker_fee), (1, 2, 3));
    assert_eq!((m.log_fee, m.log_rebate, m.log_reimburse), (4, 5, 6));
    assert_eq!(m.manager, key(4));
}
