use aqua_dex::accounts::NewAccount;
use aqua_dex::address::TokenPrograms;
use aqua_dex::cancel::{cancel_order, CancelOrder};
use aqua_dex::context::{OrderContext, Purse, TokenAccount};
use aqua_dex::create::{create_market, CreateMarket, MarketSpace, NewMarket, OpenedMarket};
use aqua_dex::exchange::Exchange;
use aqua_dex::market::{ErrorCode, Event, Market, MintType, Side};
use aqua_dex::order_entry::{limit_ask, limit_bid, market_ask, market_bid};
use aqua_dex::pubkey::Pubkey;
use aqua_dex::records::{Order, TradeEntry, TradeLogHeader};
use aqua_dex::settlement::owner_key;

const NOW: i64 = 1_000_000;

fn key(n: u8) -> Pubkey {
    Pubkey::new([n; 32])
}

fn space(n: u8, head: usize, pages: usize) -> NewAccount {
    NewAccount { key: key(n), address: 65536, data: vec![0u8; head + 226 + 16384 * pages] }
}

fn programs() -> TokenPrograms {
    TokenPrograms { token: key(201), associated_token: key(202), security_token: key(203) }
}

fn vault(agent: &Pubkey, mint: &Pubkey) -> (u8, Pubkey) {
    for nonce in (0u8..=255).rev() {
        if let Some(k) = programs().associated(agent, mint, nonce) {
            return (nonce, k);
        }
    }
    panic!("no vault");
}

/// A market with two decimals and a commission of one percent.
fn opened() -> OpenedMarket {
    let agent = key(3);
    let (mkt_vault_nonce, mkt_vault) = vault(&agent, &key(5));
    let (prc_vault_nonce, prc_vault) = vault(&agent, &key(6));
    let ctx = CreateMarket {
        market: key(1),
        state: key(2),
        agent,
        manager: key(4),
        mkt_mint: key(5),
        mkt_vault,
        prc_mint: key(6),
        prc_vault,
        programs: programs(),
        security_program: None,
        now: NOW,
    };
    let terms = NewMarket {
        agent_nonce: 9,
        mkt_vault_nonce,
        prc_vault_nonce,
        mkt_decimals: 2,
        prc_decimals: 2,
        mkt_mint_type: 0,
        prc_mint_type: 0,
        manager_withdraw: true,
        manager_cancel: true,
        expire_enable: true,
        expire_min: 60,
        min_quantity: 10,
        taker_fee: 100_000,
        log_fee: 7,
        log_rebate: 5,
        log_reimburse: 3,
    };
    create_market(
        &ctx,
        &terms,
        MarketSpace {
            orders: space(10, 0, 6),
            trade_log: space(11, 0, 1),
            settle_a: space(12, 100, 6),
            settle_b: space(13, 100, 6),
        },
    )
    .unwrap()
}

fn desk(market: &Market, user: Pubkey) -> OrderContext {
    OrderContext {
        market_key: key(1),
        market: *market,
        state_key: key(2),
        agent: key(3),
        user,
        user_mkt_token: TokenAccount { key: key(60), frozen: false, amount: 1_000_000 },
        user_prc_token: TokenAccount { key: key(61), frozen: false, amount: 1_000_000 },
        mkt_vault: market.mkt_vault,
        prc_vault: market.prc_vault,
        result: user,
        now: NOW,
        purse: Purse { user_lamports: 1000, state_lamports: 2000 },
    }
}

fn bid(x: &mut Exchange, c: &OrderContext, quantity: u64, price: u64) -> u128 {
    limit_bid(x, c, quantity, price, true, false, 0, false, false, None).unwrap().result.order_id
}

fn ask(x: &mut Exchange, c: &OrderContext, quantity: u64, price: u64) -> u128 {
    limit_ask(x, c, quantity, price, true, false, 0, false, false, None).unwrap().result.order_id
}

fn amounts(x: &Exchange, side: Side) -> Vec<(u64, u64)> {
    x.orders
        .list(side)
        .iter()
        .map(|leaf| (Order::price(leaf.key()), x.orders.get(side, leaf.key()).unwrap().1.amount()))
        .collect()
}

fn err<T>(r: Result<T, ErrorCode>) -> ErrorCode {
    match r {
        Ok(_) => panic!("not refused"),
        Err(e) => e,
    }
}

#[test]
fn posted_bid_is_held_in_the_vault() {
    let o = opened();
    let mut x = o.exchange;
    let c = desk(&o.market, key(31));
    let out = limit_bid(&mut x, &c, 250, 40, true, false, 0, false, false, None).unwrap();
    assert_eq!(out.result.tokens_sent, 100);
    assert_eq!(out.result.tokens_received, 0);
    assert_eq!(out.result.tokens_fee, 0);
    assert_eq!(out.result.posted_quantity, 250);
    assert_eq!(out.result.order_id, (40u128 << 64) | (u64::MAX as u128));
    assert_eq!(out.deposit.unwrap().amount, 100);
    assert_eq!(out.deposit.unwrap().mint_type, MintType::SPLToken);
    assert!(out.payout.is_none());
    assert!(!out.store_result);
    assert_eq!(out.purse.user_lamports, 993);
    assert_eq!(out.purse.state_lamports, 2007);
    assert_eq!(x.state.log_deposit_balance, 7);
    assert_eq!(x.state.prc_vault_balance, 100);
    assert_eq!(x.state.prc_order_balance, 100);
    assert_eq!(x.state.active_bid, 1);
    assert_eq!(x.state.action_counter, 1);
    assert_eq!(x.state.order_counter, 1);
    assert_eq!(amounts(&x, Side::Bid), vec![(40, 250)]);
    assert!(matches!(x.events[0], Event::Order(e) if e.event_type == 58862986463747312203336335289809479007
        && e.posted && !e.filled && e.posted_quantity == 250));
}

#[test]
fn posted_ask_is_held_in_the_vault() {
    let o = opened();
    let mut x = o.exchange;
    let c = desk(&o.market, key(31));
    let id = ask(&mut x, &c, 250, 40);
    assert_eq!(id, 40u128 << 64);
    assert_eq!(x.state.mkt_vault_balance, 250);
    assert_eq!(x.state.mkt_order_balance, 250);
    assert_eq!(x.state.active_ask, 1);
    assert_eq!(amounts(&x, Side::Ask), vec![(40, 250)]);
}

#[test]
fn bid_takes_the_best_asks_first() {
    let o = opened();
    let mut x = o.exchange;
    let maker = desk(&o.market, key(31));
    let late = desk(&o.market, key(32));
    ask(&mut x, &maker, 100, 50);
    ask(&mut x, &maker, 100, 40);
    ask(&mut x, &late, 100, 40);
    let taker = desk(&o.market, key(33));
    // 100 at 40 from the first, 50 at 40 from the second who came later.
    let out = limit_bid(&mut x, &taker, 150, 45, false, true, 0, false, false, None).unwrap();
    assert_eq!(out.result.tokens_received, 150);
    assert_eq!(out.result.tokens_sent, 60);
    assert_eq!(out.result.tokens_fee, 0);
    assert_eq!(out.payout.unwrap().amount, 150);
    assert_eq!(amounts(&x, Side::Ask), vec![(40, 50), (50, 100)]);
    assert_eq!(x.state.active_ask, 2);
    assert_eq!(x.state.mkt_order_balance, 150);
    assert_eq!(x.state.mkt_vault_balance, 150);
    assert_eq!(x.state.prc_log_balance, 60);
    assert_eq!(x.state.prc_vault_balance, 60);
    assert_eq!(x.state.prc_order_balance, 0);
    assert_eq!(x.state.last_price, 40);
    assert_eq!(x.settle_a.account(owner_key(&key(31))).unwrap().1.prc_token_balance(), 40);
    assert_eq!(x.settle_a.account(owner_key(&key(32))).unwrap().1.prc_token_balance(), 20);
    assert_eq!(x.settle_a.header.items, 2);
}

#[test]
fn ask_takes_the_best_bids_first_and_pays_commission() {
    let o = opened();
    let mut x = o.exchange;
    let maker = desk(&o.market, key(31));
    bid(&mut x, &maker, 1000, 300);
    bid(&mut x, &maker, 1000, 500);
    let taker = desk(&o.market, key(33));
    // 1000 at 5.00 each for 5000, and 500 at 3.00 each for 1500.
    let out = limit_ask(&mut x, &taker, 1500, 300, false, false, 0, false, false, None).unwrap();
    assert_eq!(out.result.tokens_fee, 65);
    assert_eq!(out.result.tokens_received, 6435);
    assert_eq!(out.result.tokens_sent, 1500);
    assert_eq!(out.payout.unwrap().amount, 6435);
    assert_eq!(amounts(&x, Side::Bid), vec![(300, 500)]);
    assert_eq!(x.state.prc_fees_balance, 65);
    // 8000 came in with the bids, and 6435 went out; the fee stays.
    assert_eq!(x.state.prc_vault_balance, 1565);
    assert_eq!(x.state.prc_order_balance, 1500);
    assert_eq!(x.state.mkt_log_balance, 1500);
    assert_eq!(x.state.mkt_vault_balance, 1500);
    assert_eq!(x.settle_a.account(owner_key(&key(31))).unwrap().1.mkt_token_balance(), 1500);
}

#[test]
fn better_price_is_given_back() {
    let o = opened();
    let mut x = o.exchange;
    ask(&mut x, &desk(&o.market, key(31)), 100, 40);
    let taker = desk(&o.market, key(33));
    let out = limit_bid(&mut x, &taker, 300, 50, true, false, 0, false, false, None).unwrap();
    // 40 for what was filled and 100 for what was posted.
    assert_eq!(out.result.tokens_sent, 140);
    assert_eq!(out.result.tokens_received, 100);
    assert_eq!(out.result.posted_quantity, 200);
    assert_eq!(x.state.prc_order_balance, 100);
    assert_eq!(x.state.prc_vault_balance, 140);
}

#[test]
fn limit_is_never_passed() {
    let o = opened();
    let mut x = o.exchange;
    ask(&mut x, &desk(&o.market, key(31)), 100, 60);
    let taker = desk(&o.market, key(33));
    let out = limit_bid(&mut x, &taker, 100, 59, false, false, 0, false, false, None).unwrap();
    assert_eq!(out.result.tokens_received, 0);
    assert_eq!(out.result.tokens_sent, 0);
    assert_eq!(amounts(&x, Side::Ask), vec![(60, 100)]);
}

#[test]
fn own_orders_are_passed_by() {
    let o = opened();
    let mut x = o.exchange;
    let me = desk(&o.market, key(31));
    ask(&mut x, &me, 100, 30);
    ask(&mut x, &desk(&o.market, key(32)), 100, 40);
    let out = limit_bid(&mut x, &me, 100, 50, false, true, 0, false, false, None).unwrap();
    assert_eq!(out.result.tokens_sent, 40);
    assert_eq!(amounts(&x, Side::Ask), vec![(30, 100)]);
}

#[test]
fn expired_orders_are_swept_not_matched() {
    let o = opened();
    let mut x = o.exchange;
    let maker = desk(&o.market, key(31));
    limit_ask(&mut x, &maker, 100, 30, true, false, NOW + 60, false, false, None).unwrap();
    ask(&mut x, &maker, 100, 40);
    let mut taker = desk(&o.market, key(33));
    taker.now = NOW + 59;
    let early = limit_bid(&mut x, &taker, 20, 50, false, true, 0, false, false, None).unwrap();
    assert_eq!(early.result.tokens_sent, 6);
    taker.now = NOW + 60;
    let out = limit_bid(&mut x, &taker, 100, 50, false, true, 0, false, false, None).unwrap();
    assert_eq!(out.result.tokens_sent, 40);
    assert_eq!(amounts(&x, Side::Ask), vec![]);
    assert_eq!(x.state.active_ask, 0);
    let (_, account) = x.settle_a.account(owner_key(&key(31))).unwrap();
    assert_eq!(account.mkt_token_balance(), 80);
    assert_eq!(account.prc_token_balance(), 46);
    assert!(x.events.iter().any(|e| matches!(e, Event::Expire(e) if e.quantity == 80 && e.tokens == 80)));
}

#[test]
fn expiry_must_be_far_enough_in_the_future() {
    let o = opened();
    let mut x = o.exchange;
    let c = desk(&o.market, key(31));
    for expires in [NOW - 1, NOW, NOW + 59] {
        let r = limit_bid(&mut x, &c, 100, 30, true, false, expires, false, false, None);
        assert_eq!(err(r), ErrorCode::InvalidParameters);
    }
    let r = limit_bid(&mut x, &c, 100, 30, true, false, i64::MIN, false, false, None);
    assert_eq!(err(r), ErrorCode::Overflow);
    let out = limit_bid(&mut x, &c, 100, 30, true, false, NOW + 60, false, false, None).unwrap();
    let (_, order) = x.orders.get(Side::Bid, out.result.order_id).unwrap();
    assert_eq!(order.expiry, NOW + 60);
}

#[test]
fn fill_refuses_what_is_not_filled_unless_posted() {
    let o = opened();
    let mut x = o.exchange;
    ask(&mut x, &desk(&o.market, key(31)), 100, 40);
    let taker = desk(&o.market, key(33));
    let r = limit_bid(&mut x, &taker, 200, 40, false, true, 0, false, false, None);
    assert_eq!(err(r), ErrorCode::OrderNotFilled);
    assert_eq!(amounts(&x, Side::Ask), vec![(40, 100)]);
    assert_eq!(x.state.action_counter, 1);
    assert_eq!(x.state.prc_vault_balance, 0);
    let out = limit_bid(&mut x, &taker, 200, 40, true, true, 0, false, false, None).unwrap();
    assert_eq!(out.result.tokens_received, 100);
    assert_eq!(out.result.posted_quantity, 100);
}

#[test]
fn preview_changes_nothing_and_foretells() {
    let o = opened();
    let mut x = o.exchange;
    ask(&mut x, &desk(&o.market, key(31)), 100, 40);
    ask(&mut x, &desk(&o.market, key(32)), 100, 45);
    let taker = desk(&o.market, key(33));
    let events = x.events.len();
    let tried = limit_bid(&mut x, &taker, 300, 50, true, false, 0, true, false, None).unwrap();
    assert_eq!(x.events.len(), events);
    assert_eq!(amounts(&x, Side::Ask), vec![(40, 100), (45, 100)]);
    assert_eq!(amounts(&x, Side::Bid), vec![]);
    assert_eq!(x.state.action_counter, 2);
    assert!(tried.deposit.is_none() && tried.payout.is_none());
    assert_eq!(tried.purse.user_lamports, 1000);
    assert_eq!(tried.result.order_id, u128::MAX);
    let done = limit_bid(&mut x, &taker, 300, 50, true, false, 0, false, false, None).unwrap();
    assert_eq!(tried.result.tokens_sent, done.result.tokens_sent);
    assert_eq!(tried.result.tokens_received, done.result.tokens_received);
    assert_eq!(tried.result.tokens_fee, done.result.tokens_fee);
    assert_eq!(tried.result.posted_quantity, done.result.posted_quantity);
    assert_eq!(done.result.tokens_sent, 40 + 45 + 50);
}

#[test]
fn preview_looks_into_the_token_account() {
    let o = opened();
    let mut x = o.exchange;
    let mut c = desk(&o.market, key(31));
    c.user_prc_token.amount = 29;
    let r = limit_bid(&mut x, &c, 100, 30, true, false, 0, true, false, None);
    assert_eq!(err(r), ErrorCode::InsufficientTokens);
    c.user_prc_token.frozen = true;
    let r = limit_bid(&mut x, &c, 100, 30, true, false, 0, true, false, None);
    assert_eq!(err(r), ErrorCode::ExternalError);
    c.market.prc_mint_type = 1;
    let r = limit_bid(&mut x, &c, 100, 30, true, false, 0, true, false, None);
    assert_eq!(err(r), ErrorCode::InvalidParameters);
}

#[test]
fn orders_are_refused_at_the_door() {
    let o = opened();
    let mut x = o.exchange;
    let c = desk(&o.market, key(31));
    let mut closed = c;
    closed.market.active = false;
    assert_eq!(err(limit_bid(&mut x, &closed, 100, 30, true, false, 0, false, false, None)), ErrorCode::MarketClosed);
    assert_eq!(err(limit_bid(&mut x, &c, 9, 30, true, false, 0, false, false, None)), ErrorCode::QuantityBelowMinimum);
    assert_eq!(err(limit_bid(&mut x, &c, 0, 30, true, false, 0, false, false, None)), ErrorCode::InvalidParameters);
    assert_eq!(err(limit_ask(&mut x, &c, 100, 0, true, false, 0, false, false, None)), ErrorCode::InvalidParameters);
    let mut wrong = c;
    wrong.prc_vault = key(99);
    assert_eq!(err(limit_ask(&mut x, &wrong, 100, 30, true, false, 0, false, false, None)), ErrorCode::InvalidAccount);
    let mut wrong = c;
    wrong.market.trade_log = key(99);
    assert_eq!(err(limit_ask(&mut x, &wrong, 100, 30, true, false, 0, false, false, None)), ErrorCode::InvalidAccount);
    x.state.settle_b = key(99);
    assert_eq!(err(limit_ask(&mut x, &c, 100, 30, true, false, 0, false, false, None)), ErrorCode::RetrySettlementAccount);
    x.state.settle_b = key(13);
    assert_eq!(err(limit_bid(&mut x, &c, u64::MAX, u64::MAX, true, false, 0, false, false, None)), ErrorCode::Overflow);
    let mut poor = c;
    poor.purse.user_lamports = 6;
    assert_eq!(err(limit_bid(&mut x, &poor, 100, 30, true, false, 0, false, false, None)), ErrorCode::Overflow);
    assert_eq!(x.state.action_counter, 0);
}

#[test]
fn market_bid_by_quantity() {
    let o = opened();
    let mut x = o.exchange;
    ask(&mut x, &desk(&o.market, key(31)), 1000, 400);
    ask(&mut x, &desk(&o.market, key(32)), 1000, 500);
    let taker = desk(&o.market, key(33));
    let out = market_bid(&mut x, &taker, true, 1500, 0, true, false, false, None).unwrap();
    // 4000 and 2500, with 40 and 25 commission.
    assert_eq!(out.result.tokens_received, 1500);
    assert_eq!(out.result.tokens_fee, 65);
    assert_eq!(out.result.tokens_sent, 6565);
    assert_eq!(x.state.prc_fees_balance, 65);
    assert_eq!(x.state.prc_log_balance, 6500);
    assert_eq!(x.state.prc_vault_balance, 6565);
    assert_eq!(x.state.mkt_vault_balance, 500);
    assert_eq!(err(market_bid(&mut x, &taker, true, 501, 0, true, false, false, None)), ErrorCode::OrderNotFilled);
    assert_eq!(err(market_bid(&mut x, &taker, true, 0, 5, true, false, false, None)), ErrorCode::InvalidParameters);
}

#[test]
fn market_bid_by_price() {
    let o = opened();
    let mut x = o.exchange;
    ask(&mut x, &desk(&o.market, key(31)), 1000, 400);
    let taker = desk(&o.market, key(33));
    let out = market_bid(&mut x, &taker, false, 0, 1000, true, false, false, None).unwrap();
    assert_eq!(out.result.tokens_received, 250);
    assert_eq!(out.result.tokens_fee, 10);
    assert_eq!(out.result.tokens_sent, 1010);
    assert_eq!(amounts(&x, Side::Ask), vec![(400, 750)]);
    assert_eq!(err(market_bid(&mut x, &taker, false, 5, 0, true, false, false, None)), ErrorCode::InvalidParameters);
    let all = market_bid(&mut x, &taker, false, 0, 9000, false, true, false, None).unwrap();
    assert_eq!(all.result.tokens_received, 750);
    assert_eq!(all.result.tokens_sent, 3030);
}

#[test]
fn market_ask_by_quantity_and_by_price() {
    let o = opened();
    let mut x = o.exchange;
    bid(&mut x, &desk(&o.market, key(31)), 1000, 400);
    bid(&mut x, &desk(&o.market, key(32)), 1000, 500);
    let taker = desk(&o.market, key(33));
    let out = market_ask(&mut x, &taker, true, 100, 0, true, false, false, None).unwrap();
    assert_eq!(out.result.tokens_sent, 100);
    assert_eq!(out.result.tokens_fee, 5);
    assert_eq!(out.result.tokens_received, 495);
    let out = market_ask(&mut x, &taker, false, 0, 5000, true, false, false, None).unwrap();
    // 900 at 5.00 for 4500, and 125 at 4.00 for 500.
    assert_eq!(out.result.tokens_sent, 1025);
    assert_eq!(out.result.tokens_fee, 50);
    assert_eq!(out.result.tokens_received, 4950);
    assert_eq!(amounts(&x, Side::Bid), vec![(400, 875)]);
    assert_eq!(x.state.active_bid, 1);
    assert_eq!(x.state.mkt_log_balance, 1125);
    // 9000 came in with the bids, and 495 and 4950 went out; the fees stay.
    assert_eq!(x.state.prc_vault_balance, 3555);
    assert_eq!(x.state.prc_order_balance, 3500);
    assert_eq!(x.state.prc_fees_balance, 55);
}

#[test]
fn ask_keeps_what_it_neither_sells_nor_posts() {
    let o = opened();
    let mut x = o.exchange;
    bid(&mut x, &desk(&o.market, key(31)), 100, 300);
    let mut taker = desk(&o.market, key(33));
    taker.user_mkt_token.amount = 100;
    let tried = limit_ask(&mut x, &taker, 250, 300, false, false, 0, true, false, None).unwrap();
    assert_eq!(tried.result.tokens_sent, 100);
    let out = limit_ask(&mut x, &taker, 250, 300, false, false, 0, false, false, None).unwrap();
    assert_eq!(out.result.tokens_sent, 100);
    assert_eq!(out.result.posted_quantity, 0);
    assert_eq!(out.result.tokens_received, 297);
    assert_eq!(out.deposit.unwrap().amount, 100);
    assert_eq!(x.state.mkt_vault_balance, 100);
    assert_eq!(x.state.mkt_log_balance, 100);
    assert_eq!(x.state.mkt_order_balance, 0);
    assert_eq!(x.state.prc_vault_balance, 3);
    assert_eq!(x.state.prc_order_balance, 0);
    let none = limit_ask(&mut x, &taker, 250, 300, false, false, 0, false, false, None).unwrap();
    assert_eq!(none.result.tokens_sent, 0);
    assert_eq!(x.state.mkt_vault_balance, 100);
}

#[test]
fn ask_sends_what_it_sells_and_posts() {
    let o = opened();
    let mut x = o.exchange;
    bid(&mut x, &desk(&o.market, key(31)), 100, 300);
    let taker = desk(&o.market, key(33));
    let out = limit_ask(&mut x, &taker, 250, 300, true, false, 0, false, false, None).unwrap();
    assert_eq!(out.result.tokens_sent, 250);
    assert_eq!(out.result.posted_quantity, 150);
    assert_eq!(x.state.mkt_vault_balance, 250);
    assert_eq!(x.state.mkt_order_balance, 150);
}

#[test]
fn trades_are_logged_in_a_ring() {
    let o = opened();
    let mut x = o.exchange;
    let maker = desk(&o.market, key(31));
    let taker = desk(&o.market, key(33));
    ask(&mut x, &maker, 2000, 400);
    for _ in 0..103 {
        limit_bid(&mut x, &taker, 10, 400, false, true, 0, false, false, None).unwrap();
    }
    let head: TradeLogHeader = x.trade_log.slab.header::<TradeLogHeader>(0);
    assert_eq!(head.trade_count, 103);
    assert_eq!(head.entry_max, 100);
    for (place, id) in [(0usize, 101u64), (2, 103), (3, 4), (99, 100)] {
        let trade: TradeEntry = x.trade_log.slab.index::<TradeEntry>(0, place);
        assert_eq!(trade.trade_id, id);
        assert_eq!(trade.amount, 10);
        assert_eq!(trade.price, 400);
        assert_eq!(trade.maker, key(31));
        assert_eq!(trade.taker, key(33));
        assert!(!trade.maker_filled);
        assert_eq!(trade.event_type, 94062763214239030578622318919331863353);
    }
}

#[test]
fn full_book_takes_only_better_prices() {
    let o = opened();
    let mut x = o.exchange;
    let maker = desk(&o.market, key(31));
    for i in 0..250u64 {
        bid(&mut x, &maker, 100, 1000 + i);
    }
    assert_eq!(x.state.active_bid, 250);
    let late = desk(&o.market, key(32));
    assert_eq!(
        err(limit_bid(&mut x, &late, 100, 1000, true, false, 0, false, false, None)),
        ErrorCode::OrderbookFull
    );
    assert_eq!(x.state.active_bid, 250);
    bid(&mut x, &late, 100, 1001);
    assert_eq!(x.state.active_bid, 250);
    assert_eq!(amounts(&x, Side::Bid)[0], (1001, 100));
    assert_eq!(x.settle_a.account(owner_key(&key(31))).unwrap().1.prc_token_balance(), 1000);
}

#[test]
fn cancel_undoes_a_post() {
    let o = opened();
    let mut x = o.exchange;
    let c = desk(&o.market, key(31));
    let id = bid(&mut x, &c, 250, 40);
    let mut cancel = CancelOrder {
        market_key: key(1),
        market: o.market,
        state_key: key(2),
        agent: key(3),
        owner: key(32),
        user_mkt_token: key(60),
        user_prc_token: key(61),
        mkt_vault: o.market.mkt_vault,
        prc_vault: o.market.prc_vault,
        result: key(70),
        purse: Purse { user_lamports: 0, state_lamports: 10 },
    };
    assert_eq!(err(cancel_order(&mut x.state, &mut x.orders, &cancel, 0, id)), ErrorCode::AccessDenied);
    cancel.owner = key(31);
    assert_eq!(err(cancel_order(&mut x.state, &mut x.orders, &cancel, 1, id)), ErrorCode::OrderNotFound);
    assert_eq!(err(cancel_order(&mut x.state, &mut x.orders, &cancel, 2, id)), ErrorCode::InvalidParameters);
    let out = cancel_order(&mut x.state, &mut x.orders, &cancel, 0, id).unwrap();
    assert_eq!(out.result.prc_tokens, 100);
    assert_eq!(out.result.mkt_tokens, 0);
    assert_eq!(out.payout.amount, 100);
    assert!(out.store_result);
    assert_eq!(out.purse.user_lamports, 5);
    assert_eq!(out.purse.state_lamports, 5);
    assert_eq!(out.event.token_withdrawn, 100);
    assert_eq!(out.event.order_price, 40);
    assert_eq!(x.state.prc_vault_balance, 0);
    assert_eq!(x.state.prc_order_balance, 0);
    assert_eq!(x.state.active_bid, 0);
    assert_eq!(x.state.log_deposit_balance, 2);
    assert_eq!(err(cancel_order(&mut x.state, &mut x.orders, &cancel, 0, id)), ErrorCode::OrderNotFound);
    cancel.mkt_vault = key(99);
    assert_eq!(err(cancel_order(&mut x.state, &mut x.orders, &cancel, 0, id)), ErrorCode::InvalidAccount);
}

#[test]
fn rollover_puts_a_log_behind_the_last() {
    let o = opened();
    let mut x = o.exchange;
    let c = desk(&o.market, key(31));
    let r = limit_bid(&mut x, &c, 100, 30, true, false, 0, false, true, Some(space(14, 100, 6)));
    assert_eq!(err(r), ErrorCode::RetrySettlementAccount);
    let r = limit_bid(&mut x, &c, 100, 30, true, false, 0, false, true, None);
    assert_eq!(err(r), ErrorCode::RetrySettlementAccount);
    let r = market_ask(&mut x, &c, true, 100, 0, false, false, true, None);
    assert_eq!(err(r), ErrorCode::RetrySettlementAccount);
    x.state.log_rollover = true;
    let mut closed = c;
    closed.market.active = false;
    assert_eq!(err(limit_ask(&mut x, &closed, 100, 30, true, false, 0, false, true, None)), ErrorCode::MarketClosed);
    x.state.log_deposit_balance = 10;
    let out = limit_bid(&mut x, &c, 100, 30, true, false, 0, false, true, Some(space(14, 100, 6))).unwrap();
    let added = out.new_log.unwrap();
    assert_eq!(added.header.prev, key(13));
    assert_eq!(added.header.next, Pubkey::default());
    assert_eq!(added.header.market, key(1));
    assert_eq!(x.settle_b.header.next, key(14));
    assert_eq!(x.state.settle_a, key(13));
    assert_eq!(x.state.settle_b, key(14));
    assert!(!x.state.log_rollover);
    // 3 paid back for the log, 7 taken for the order.
    assert_eq!(out.purse.user_lamports, 996);
    assert_eq!(x.state.log_deposit_balance, 14);
}
