use anchor_spl::associated_token::get_associated_token_address;
use aqua_dex::accounts::NewAccount;
use aqua_dex::address::{verify_vault, TokenPrograms};
use aqua_dex::create::{create_market, store_metadata, CreateMarket, MarketSpace, NewMarket, UpdateMetadata};
use aqua_dex::crit_view::CritMap;
use aqua_dex::market::{map_len, ErrorCode, MintType, Side, DT};
use aqua_dex::math::{calculate_fee, decimal_factor, fill_quantity, scale_price};
use aqua_dex::order_book::OrderBook;
use aqua_dex::pubkey::Pubkey;
use aqua_dex::records::{Order, TradeEntry, TradeLogHeader};
use aqua_dex::trade_log::TradeLog;

fn key(n: u8) -> Pubkey {
    Pubkey::new([n; 32])
}

fn space(n: u8, head: usize, pages: usize) -> NewAccount {
    NewAccount { key: key(n), address: 65536, data: vec![0u8; head + 226 + 16384 * pages] }
}

fn programs() -> TokenPrograms {
    TokenPrograms {
        token: Pubkey::new(anchor_spl::token::ID.to_bytes()),
        associated_token: Pubkey::new(anchor_spl::associated_token::ID.to_bytes()),
        security_token: key(203),
    }
}

fn vault(agent: &Pubkey, mint: &Pubkey) -> (u8, Pubkey) {
    for nonce in (0u8..=255).rev() {
        if let Some(k) = programs().associated(agent, mint, nonce) {
            return (nonce, k);
        }
    }
    panic!("no vault");
}

fn request() -> (CreateMarket, NewMarket) {
    let agent = key(3);
    let (mkt_vault_nonce, mkt_vault) = vault(&agent, &key(5));
    let (prc_vault_nonce, prc_vault) = vault(&agent, &key(6));
    (
        CreateMarket {
            market: key(1),
            state: key(2),
            agent,
            manager: key(4),
            mkt_mint: key(5),
            mkt_vault,
            prc_mint: key(6),
            prc_vault,
            programs: programs(),
            security_program: None,
            now: 77,
        },
        NewMarket {
            agent_nonce: 9,
            mkt_vault_nonce,
            prc_vault_nonce,
            mkt_decimals: 2,
            prc_decimals: 3,
            mkt_mint_type: 0,
            prc_mint_type: 0,
            manager_withdraw: true,
            manager_cancel: false,
            expire_enable: true,
            expire_min: 60,
            min_quantity: 10,
            taker_fee: 100_000,
            log_fee: 7,
            log_rebate: 5,
            log_reimburse: 3,
        },
    )
}

fn books() -> MarketSpace {
    MarketSpace {
        orders: space(10, 0, 6),
        trade_log: space(11, 0, 1),
        settle_a: space(12, 100, 6),
        settle_b: space(13, 100, 6),
    }
}

fn refused(ctx: &CreateMarket, terms: &NewMarket) -> ErrorCode {
    match create_market(ctx, terms, books()) {
        Ok(_) => panic!("not refused"),
        Err(e) => e,
    }
}

#[test]
fn vaults_are_associated_token_accounts() {
    let wallet = solana_program::pubkey::Pubkey::new_from_array([3; 32]);
    let mint = solana_program::pubkey::Pubkey::new_from_array([5; 32]);
    let expected = get_associated_token_address(&wallet, &mint);
    let (nonce, found) = vault(&key(3), &key(5));
    assert_eq!(found.bytes, expected.to_bytes());
    let (_, bump) = solana_program::pubkey::Pubkey::find_program_address(
        &[&wallet.to_bytes(), &anchor_spl::token::ID.to_bytes(), &mint.to_bytes()],
        &anchor_spl::associated_token::ID,
    );
    assert_eq!(nonce, bump);
    assert_ne!(programs().associated(&key(3), &key(6), nonce), Some(found));
}

#[test]
fn some_nonces_give_no_address() {
    let none = (0u8..=255).filter(|n| programs().associated(&key(3), &key(5), *n).is_none()).count();
    assert!(none > 0 && none < 256);
}

#[test]
fn derived_vault_must_match() {
    assert_eq!(verify_vault(&Some(key(1)), &key(1)), Ok(()));
    assert_eq!(verify_vault(&Some(key(2)), &key(1)), Err(ErrorCode::InvalidDerivedAccount));
    assert_eq!(verify_vault(&None, &key(1)), Err(ErrorCode::InvalidDerivedAccount));
}

#[test]
fn new_market_is_empty() {
    let (ctx, terms) = request();
    let o = create_market(&ctx, &terms, books()).unwrap();
    assert!(o.market.active && o.market.manager_withdraw && !o.market.manager_cancel);
    assert_eq!(o.market.state, key(2));
    assert_eq!(o.market.orders, key(10));
    assert_eq!(o.market.trade_log, key(11));
    assert_eq!(o.market.settle_0, key(12));
    assert_eq!(o.market.agent_nonce, 9);
    assert_eq!(o.market.prc_decimals, 3);
    assert_eq!(o.vaults.mkt, MintType::SPLToken);
    let x = o.exchange;
    assert_eq!(x.state.settle_a, key(12));
    assert_eq!(x.state.settle_b, key(13));
    assert_eq!(x.state.last_ts, 77);
    assert_eq!(x.state.mkt_vault_balance, 0);
    assert_eq!(x.orders.list(Side::Bid).len(), 0);
    assert_eq!(x.orders.list(Side::Ask).len(), 0);
    assert!(x.orders.worst(Side::Bid).is_none());
    assert_eq!(x.settle_a.header.prev, Pubkey::default());
    assert_eq!(x.settle_a.header.next, key(13));
    assert_eq!(x.settle_b.header.prev, key(12));
    assert_eq!(x.settle_b.header.next, Pubkey::default());
    assert_eq!(x.settle_a.header.market, key(1));
    let head: TradeLogHeader = x.trade_log.slab.header::<TradeLogHeader>(0);
    assert_eq!((head.trade_count, head.entry_max), (0, 100));
}

#[test]
fn market_with_wrong_terms_is_refused() {
    let (ctx, terms) = request();
    let mut t = terms;
    t.mkt_mint_type = 2;
    assert_eq!(refused(&ctx, &t), ErrorCode::InvalidParameters);
    let mut t = terms;
    t.expire_min = 0;
    assert_eq!(refused(&ctx, &t), ErrorCode::InvalidParameters);
    let mut c = ctx;
    c.mkt_vault = key(99);
    assert_eq!(refused(&c, &terms), ErrorCode::InvalidDerivedAccount);
    let mut c = ctx;
    c.prc_vault = key(99);
    assert_eq!(refused(&c, &terms), ErrorCode::InvalidDerivedAccount);
}

#[test]
fn security_tokens_need_their_program() {
    let (mut ctx, mut terms) = request();
    terms.mkt_mint_type = 1;
    ctx.mkt_vault = key(99);
    ctx.security_program = Some(key(204));
    assert_eq!(refused(&ctx, &terms), ErrorCode::InvalidParameters);
    ctx.security_program = Some(key(203));
    let o = create_market(&ctx, &terms, books()).unwrap();
    assert_eq!(o.vaults.mkt, MintType::AtxSecurityToken);
    assert_eq!(o.vaults.prc, MintType::SPLToken);
    terms.prc_mint_type = 1;
    assert_eq!(refused(&ctx, &terms), ErrorCode::InvalidParameters);
}

#[test]
fn prices_and_fees_round_down() {
    assert_eq!(scale_price(250, 40, 100), Ok(100));
    assert_eq!(scale_price(249, 41, 100), Ok(102));
    assert_eq!(scale_price(5, 5, 0), Err(ErrorCode::Overflow));
    assert_eq!(scale_price(u64::MAX, u64::MAX, 1), Err(ErrorCode::Overflow));
    assert_eq!(scale_price(u64::MAX, u64::MAX, u64::MAX), Ok(u64::MAX));
    assert_eq!(fill_quantity(100, 40, 100), Ok(250));
    assert_eq!(fill_quantity(100, 41, 100), Ok(243));
    assert_eq!(fill_quantity(100, 0, 100), Err(ErrorCode::Overflow));
    assert_eq!(calculate_fee(1000, 1_000_000), Ok(100));
    assert_eq!(calculate_fee(1000, 9_999), Ok(0));
    assert_eq!(calculate_fee(u32::MAX, u64::MAX), Err(ErrorCode::Overflow));
    assert_eq!(decimal_factor(0), 1);
    assert_eq!(decimal_factor(9), 1_000_000_000);
    assert_eq!(decimal_factor(19), 10_000_000_000_000_000_000);
}

#[test]
fn keys_are_murmur3_hashes() {
    let text = "Hello, 3!";
    let expected = murmur3::murmur3_x86_128(&mut std::io::Cursor::new(text), 0).unwrap();
    assert_eq!(CritMap::str_hash(text.to_string()), expected);
    assert_eq!(CritMap::bytes_hash(text.as_bytes()), expected);
    assert_eq!(CritMap::bytes_hash(&[]), 0);
    assert_ne!(CritMap::bytes_hash(b"a"), CritMap::bytes_hash(b"b"));
}

#[test]
fn orders_sort_by_price_and_time() {
    let mut book = OrderBook::create(space(10, 0, 6));
    let mut state = create_market(&request().0, &request().1, books()).unwrap().exchange.state;
    let mut keys = Vec::new();
    for price in [30u64, 50, 40, 50] {
        let id = Order::new_key(&mut state, Side::Bid, price);
        assert_eq!(Order::price(id), price);
        book.post(Side::Bid, id, &key(31), &Order { amount: price, expiry: 0 }, None);
        keys.push(id);
    }
    assert_eq!(state.order_counter, 4);
    let listed: Vec<u128> = book.list(Side::Bid).iter().map(|leaf| leaf.key()).collect();
    assert_eq!(listed, vec![keys[0], keys[2], keys[3], keys[1]]);
    assert_eq!(book.worst(Side::Bid).unwrap().key(), keys[0]);
    book.remove(Side::Bid, keys[0]);
    assert_eq!(book.worst(Side::Bid).unwrap().key(), keys[2]);
    assert!(book.get(Side::Bid, keys[0]).is_none());
    let asks: Vec<u128> = [30u64, 30].iter().map(|p| Order::new_key(&mut state, Side::Ask, *p)).collect();
    assert!(asks[0] < asks[1]);
}

#[test]
fn book_is_read_back_from_its_bytes() {
    let mut book = OrderBook::create(space(10, 0, 6));
    for i in 0..40u128 {
        let order = Order { amount: i as u64, expiry: -(i as i64) };
        book.post(Side::Ask, i * 12345678901234567890, &key(i as u8), &order, None);
    }
    book.remove(Side::Ask, 5 * 12345678901234567890);
    let bytes = book.store();
    assert_eq!(bytes.len(), 226 + 16384 * 6);
    let back = OrderBook::load(&key(10), &bytes, 12);
    assert_eq!(back.list(Side::Ask).len(), 39);
    let (leaf, order) = back.get(Side::Ask, 7 * 12345678901234567890).unwrap();
    assert_eq!(leaf.owner(), key(7));
    assert_eq!((order.amount(), order.expiry), (7, -7));
    assert_eq!(back.list(Side::Bid).len(), 0);
}

#[test]
fn trade_log_is_read_back_from_its_bytes() {
    let mut log = TradeLog::create(space(11, 100, 1));
    let entry = TradeEntry {
        event_type: 5,
        action_id: 6,
        trade_id: 0,
        maker_order_id: 7,
        maker_filled: true,
        maker: key(8),
        taker: key(9),
        taker_side: 1,
        amount: 10,
        price: 11,
        ts: -12,
    };
    assert_eq!(log.record(&entry), Ok(1));
    assert_eq!(log.record(&entry), Ok(2));
    let back = TradeLog::load(&key(11), &log.store(), 0);
    let trade: TradeEntry = back.slab.index::<TradeEntry>(0, 1);
    assert_eq!(trade.trade_id, 2);
    assert!(trade.maker_filled);
    assert_eq!(trade.taker, key(9));
    assert_eq!(trade.ts, -12);
}

#[test]
fn metadata_carries_the_version() {
    let md = store_metadata(
        &UpdateMetadata { program: key(1) },
        "a".to_string(),
        "b".to_string(),
        "c".to_string(),
        "d".to_string(),
        "e".to_string(),
    );
    assert_eq!((md.semvar_major, md.semvar_minor, md.semvar_patch), (1, 0, 0));
    assert_eq!(md.program, key(1));
    assert_eq!(md.program_name, "a");
    assert_eq!(md.verify_url, "e");
}

#[test]
fn errors_have_messages() {
    assert_eq!(ErrorCode::AccessDenied.message(), "Access denied");
    assert_eq!(ErrorCode::OrderbookFull.message(), "Orderbook full");
    assert_eq!(
        ErrorCode::RetrySettlementAccount.message(),
        "Settlement log account does not match market, please update market data and retry"
    );
    assert_eq!(map_len(DT::BidOrder), 500);
    assert_eq!(map_len(DT::Account), 1500);
}
