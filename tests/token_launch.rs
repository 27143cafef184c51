use launchpad::amm::{PRICE_SCALE, UNIT};
use launchpad::error::EngineError;
use launchpad::holdings::HoldingsLedger;
use launchpad::token_launch::{
    contract_address_from_digest, generate_contract_address, trade_id, BuyTokenRequest, LaunchTokenRequest, SellTokenRequest,
    TokenLaunchSystem, TokenStatus, TradeType,
};
use sha2::{Digest, Sha256};

const U: u64 = UNIT;

/// A launch of `supply` whole tokens seeded with `liquidity` whole base units,
/// opening at a price of 1.0.
fn launch_request(symbol: &str, supply: u64, liquidity: u64) -> LaunchTokenRequest {
    LaunchTokenRequest {
        symbol: symbol.to_string(),
        name: format!("{} Coin", symbol),
        description: "test token".to_string(),
        creator: "alice".to_string(),
        total_supply: supply * U,
        initial_price: PRICE_SCALE,
        initial_liquidity: liquidity * U,
        image_url: None,
        website: Some("https://example.org".to_string()),
        twitter: None,
        telegram: None,
    }
}

fn buy(symbol: &str, buyer: &str, amount: u64, max_slippage: u64) -> BuyTokenRequest {
    BuyTokenRequest { token_symbol: symbol.to_string(), buyer: buyer.to_string(), l1_amount: amount, max_slippage }
}

fn sell(symbol: &str, seller: &str, amount: u64, max_slippage: u64) -> SellTokenRequest {
    SellTokenRequest { token_symbol: symbol.to_string(), seller: seller.to_string(), token_amount: amount, max_slippage }
}

fn held(e: &TokenLaunchSystem, user: &str, symbol: &str) -> Option<u64> {
    e.get_user_holdings(&user.to_string()).iter().find(|h| h.token_symbol == symbol).map(|h| h.amount)
}

fn engine_with_meme() -> TokenLaunchSystem {
    let mut e = TokenLaunchSystem::new();
    e.launch_token_at(launch_request("MEME", 1_000_000, 1_000_000), 10 * U, 1, 1).unwrap();
    e
}

#[test]
fn launch_bounds_are_inclusive() {
    let mut e = TokenLaunchSystem::new();
    let r = e.launch_token_at(launch_request("LOW", 999_999, 1000), 100 * U, 1, 1);
    assert_eq!(r.err(), Some(EngineError::InvalidSupply));
    let t = e.launch_token_at(launch_request("LOW", 1_000_000, 1000), 100 * U, 1, 1).unwrap();
    assert_eq!(t.total_supply, 1_000_000 * U);
    let r = e.launch_token_at(launch_request("HIGH", 1_000_000_000_001, 1000), 100 * U, 1, 1);
    assert_eq!(r.err(), Some(EngineError::InvalidSupply));
    assert!(e.launch_token_at(launch_request("HIGH", 1_000_000_000_000, 1000), 100 * U, 1, 1).is_ok());
}

#[test]
fn launch_sets_up_token_pool_and_creator() {
    let mut e = TokenLaunchSystem::new();
    let t = e.launch_token_at(launch_request("MEME", 1_000_000, 5_000), 10 * U, 42, 7).unwrap();
    assert_eq!(t.status, TokenStatus::Launching);
    assert_eq!(t.circulating_supply, 0);
    assert_eq!(t.price_in_l1, 1_000);
    assert_eq!(t.created_at, 42);
    // the creator counts as the first holder
    assert_eq!(t.holders_count, 1);
    assert_eq!(t.website, Some("https://example.org".to_string()));
    let p = &e.liquidity_pools[0];
    assert_eq!(p.token_reserve, 800_000 * U);
    assert_eq!(p.l1_reserve, 5_000 * U);
    assert_eq!(p.k_constant, 800_000_000u128 * 5_000_000);
    assert_eq!(p.fee_bps, 30);
    assert_eq!(held(&e, "alice", "MEME"), Some(200_000 * U));
    let h = &e.get_user_holdings(&"alice".to_string())[0];
    assert_eq!(h.average_price, 1_000);
    assert_eq!(h.acquired_at, 42);
}

#[test]
fn launch_errors() {
    let mut e = TokenLaunchSystem::new();
    assert_eq!(
        e.launch_token_at(launch_request("MEME", 1_000_000, 1000), 5 * U, 1, 1).err(),
        Some(EngineError::InsufficientBalance { required: 10 * U, available: 5 * U })
    );
    assert_eq!(e.launch_token_at(launch_request("M", 1_000_000, 1000), 10 * U, 1, 1).err(), Some(EngineError::InvalidMetadata));
    assert_eq!(
        e.launch_token_at(launch_request("ELEVENCHARS", 1_000_000, 1000), 10 * U, 1, 1).err(),
        Some(EngineError::InvalidMetadata)
    );
    let mut short_name = launch_request("MEME", 1_000_000, 1000);
    short_name.name = "ab".to_string();
    assert_eq!(e.launch_token_at(short_name, 10 * U, 1, 1).err(), Some(EngineError::InvalidMetadata));
    assert_eq!(e.launch_token_at(launch_request("MEME", 1_000_000, 0), 10 * U, 1, 1).err(), Some(EngineError::ReserveExhausted));
    assert!(e.tokens.is_empty());
    assert!(e.launch_token(launch_request("MEME", 1_000_000, 1000), 10 * U).is_ok());
    assert_eq!(e.launch_token(launch_request("MEME", 2_000_000, 1000), 10 * U).err(), Some(EngineError::DuplicateSymbol));
    assert_eq!(e.tokens.len(), 1);
}

#[test]
fn buy_updates_pool_token_and_holding() {
    let mut e = engine_with_meme();
    // 10 base units, of which 0.3% stays as fee: 9.97 go into the formula
    let t = e.buy_token_at(buy("MEME", "bob", 10 * U, 10_000), 10 * U, 5, 1234).unwrap();
    assert_eq!(t.trade_type, TradeType::Buy);
    assert_eq!(t.amount, (800_000_000u128 * 9_970 / 1_000_009_970) as u64); // 7.975 tokens
    assert_eq!(t.amount, 7_975);
    assert_eq!(t.l1_amount, 10 * U);
    assert_eq!(t.timestamp, 5);
    assert_eq!(t.id, "trade_MEME_1234");
    let token = e.get_token_info(&"MEME".to_string()).unwrap();
    assert_eq!(token.circulating_supply, 7_975);
    assert_eq!(token.trade_count, 1);
    assert_eq!(token.holders_count, 2);
    assert_eq!(token.liquidity_pool, 1_000_010_000);
    // the price is the pool's base reserve over its token reserve
    assert_eq!(token.price_in_l1, 1_000_010_000u128 * 1_000 / (800_000_000 - 7_975));
    assert_eq!(token.status, TokenStatus::Trading);
    assert_eq!(held(&e, "bob", "MEME"), Some(7_975));
    assert_eq!(e.recent_trades.len(), 1);
}

#[test]
fn buy_errors_change_nothing() {
    let mut e = engine_with_meme();
    assert_eq!(e.buy_token_at(buy("NONE", "bob", 10 * U, 10_000), 10 * U, 1, 1).err(), Some(EngineError::TokenNotFound));
    assert_eq!(
        e.buy_token_at(buy("MEME", "bob", 100 * U, 10_000), 50 * U, 1, 1).err(),
        Some(EngineError::InsufficientBalance { required: 100 * U, available: 50 * U })
    );
    assert_eq!(e.buy_token_at(buy("MEME", "bob", 0, 10_000), 50 * U, 1, 1).err(), Some(EngineError::InvalidAmount));
    assert!(matches!(
        e.buy_token_at(buy("MEME", "bob", 500_000 * U, 0), 1_000_000 * U, 1, 1).err(),
        Some(EngineError::SlippageExceeded(_))
    ));
    assert_eq!(e.liquidity_pools[0].l1_reserve, 1_000_000 * U);
    assert_eq!(e.liquidity_pools[0].token_reserve, 800_000 * U);
    assert_eq!(e.tokens[0].trade_count, 0);
    assert!(e.recent_trades.is_empty());
    assert_eq!(held(&e, "bob", "MEME"), None);
}

#[test]
fn selling_everything_removes_holding() {
    let mut e = engine_with_meme();
    let bought = e.buy_token(buy("MEME", "bob", 100_000 * U, 10_000), 100_000 * U).unwrap();
    let before = e.get_user_holdings(&"bob".to_string())[0].average_price;
    let part = e.sell_token(sell("MEME", "bob", 1_000 * U, 10_000)).unwrap();
    assert_eq!(part.trade_type, TradeType::Sell);
    assert_eq!(held(&e, "bob", "MEME"), Some(bought.amount - 1_000 * U));
    // a partial sell leaves the cost basis alone
    assert_eq!(e.get_user_holdings(&"bob".to_string())[0].average_price, before);
    e.sell_token(sell("MEME", "bob", bought.amount - 1_000 * U, 10_000)).unwrap();
    assert_eq!(held(&e, "bob", "MEME"), None);
    assert!(e.get_user_holdings(&"bob".to_string()).is_empty());
    let token = e.get_token_info(&"MEME".to_string()).unwrap();
    assert_eq!(token.circulating_supply, 0);
    // holders are never decremented
    assert_eq!(token.holders_count, 2);
    assert_eq!(token.trade_count, 3);
}

#[test]
fn sell_errors() {
    let mut e = engine_with_meme();
    assert_eq!(
        e.sell_token_at(sell("MEME", "bob", 5 * U, 10_000), 1, 1).err(),
        Some(EngineError::InsufficientHoldings { held: 0, requested: 5 * U })
    );
    assert_eq!(
        e.sell_token_at(sell("MEME", "alice", 200_001 * U, 10_000), 1, 1).err(),
        Some(EngineError::InsufficientHoldings { held: 200_000 * U, requested: 200_001 * U })
    );
    assert!(matches!(e.sell_token_at(sell("MEME", "alice", 100_000 * U, 0), 1, 1).err(), Some(EngineError::SlippageExceeded(_))));
    assert_eq!(e.sell_token_at(sell("MEME", "alice", 0, 10_000), 1, 1).err(), Some(EngineError::InvalidAmount));
    assert_eq!(held(&e, "alice", "MEME"), Some(200_000 * U));
    assert_eq!(e.liquidity_pools[0].token_reserve, 800_000 * U);
}

#[test]
fn creator_sale_takes_circulation_negative() {
    let mut e = engine_with_meme();
    let t = e.sell_token_at(sell("MEME", "alice", 1_000 * U, 10_000), 1, 1).unwrap();
    // 1000000 * 1000 / 801000 base units, less the fee
    let gross = 1_000_000_000u128 * 1_000_000 / 801_000_000;
    assert_eq!(t.l1_amount as u128, gross * 9_970 / 10_000);
    assert_eq!(t.l1_amount, 1_244_693);
    let token = e.get_token_info(&"MEME".to_string()).unwrap();
    assert_eq!(token.circulating_supply, -1_000_000);
    assert!(token.market_cap < 0);
}

#[test]
fn graduation_is_immediate_and_final() {
    let mut e = engine_with_meme();
    assert_eq!(e.graduation_threshold, 50_000 * U);
    let t = e.buy_token_at(buy("MEME", "bob", 2_000_000 * U, 100_000), 2_000_000 * U, 2, 2).unwrap();
    assert_eq!(t.amount as u128, 800_000_000u128 * 1_994_000_000 / 2_994_000_000);
    let token = e.get_token_info(&"MEME".to_string()).unwrap();
    assert!(token.market_cap >= (50_000 * U) as i128);
    assert_eq!(token.status, TokenStatus::Graduated);
    e.sell_token_at(sell("MEME", "bob", t.amount, 10_000), 3, 3).unwrap();
    let token = e.get_token_info(&"MEME".to_string()).unwrap();
    assert!(token.market_cap < (50_000 * U) as i128);
    assert_eq!(token.status, TokenStatus::Graduated);
}

#[test]
fn conservation_over_trades() {
    let mut e = engine_with_meme();
    let a = e.buy_token_at(buy("MEME", "bob", 30_000 * U, 10_000), 30_000 * U, 1, 1).unwrap();
    let b = e.buy_token_at(buy("MEME", "carol", 50_000 * U, 10_000), 50_000 * U, 1, 1).unwrap();
    e.sell_token_at(sell("MEME", "bob", a.amount / 2, 10_000), 1, 1).unwrap();
    let live: u64 = ["bob", "carol"].iter().map(|u| held(&e, u, "MEME").unwrap_or(0)).sum();
    let token = e.get_token_info(&"MEME".to_string()).unwrap();
    assert_eq!(token.circulating_supply as u64, live);
    assert_eq!(live, a.amount - a.amount / 2 + b.amount);
    // the pool and all holders together hold the whole supply
    assert_eq!(e.liquidity_pools[0].token_reserve + live + 200_000 * U, 1_000_000 * U);
}

#[test]
fn average_price_is_volume_weighted() {
    let mut ledger = HoldingsLedger::new();
    let user = "bob".to_string();
    let sym = "MEME".to_string();
    // 100 tokens at 1.0, then 100 more at 3.0
    assert!(ledger.credit(&user, &sym, 100 * U, 1_000, 1));
    assert!(!ledger.credit(&user, &sym, 100 * U, 3_000, 2));
    let h = ledger.get(&user, &sym).unwrap();
    assert_eq!(h.amount, 200 * U);
    assert_eq!(h.average_price, 2_000);
    assert_eq!(h.acquired_at, 1);
    assert_eq!(
        ledger.debit(&user, &sym, 300 * U),
        Err(EngineError::InsufficientHoldings { held: 200 * U, requested: 300 * U })
    );
    assert_eq!(ledger.debit(&user, &sym, 50 * U), Ok(()));
    let h = ledger.get(&user, &sym).unwrap();
    assert_eq!((h.amount, h.average_price, h.acquired_at), (150 * U, 2_000, 1));
    assert_eq!(ledger.debit(&user, &sym, 150 * U), Ok(()));
    assert!(ledger.get(&user, &sym).is_none());
}

#[test]
fn trending_orders_by_trades_then_launch() {
    let mut e = TokenLaunchSystem::new();
    for s in ["AAA", "BBB", "CCC"] {
        e.launch_token_at(launch_request(s, 1_000_000, 1_000_000), 10 * U, 1, 1).unwrap();
    }
    e.buy_token_at(buy("CCC", "bob", 1_000 * U, 10_000), 1_000 * U, 1, 1).unwrap();
    e.buy_token_at(buy("CCC", "bob", 1_000 * U, 10_000), 1_000 * U, 1, 2).unwrap();
    e.buy_token_at(buy("BBB", "bob", 1_000 * U, 10_000), 1_000 * U, 1, 3).unwrap();
    let top: Vec<String> = e.get_trending_tokens(10).into_iter().map(|t| t.symbol).collect();
    assert_eq!(top, vec!["CCC", "BBB", "AAA"]);
    let top2: Vec<String> = e.get_trending_tokens(2).into_iter().map(|t| t.symbol).collect();
    assert_eq!(top2, vec!["CCC", "BBB"]);
    assert!(e.get_trending_tokens(0).is_empty());
    let recent: Vec<String> = e.get_recent_trades(2).into_iter().map(|t| t.id).collect();
    assert_eq!(recent, vec!["trade_BBB_3", "trade_CCC_2"]);
    assert_eq!(e.get_recent_trades(10).len(), 3);
    assert_eq!(e.get_all_tokens().len(), 3);
}

#[test]
fn trending_ties_keep_launch_order() {
    let mut e = TokenLaunchSystem::new();
    for s in ["AAA", "BBB", "CCC"] {
        e.launch_token_at(launch_request(s, 1_000_000, 1_000_000), 10 * U, 1, 1).unwrap();
    }
    let top: Vec<String> = e.get_trending_tokens(3).into_iter().map(|t| t.symbol).collect();
    assert_eq!(top, vec!["AAA", "BBB", "CCC"]);
}

#[test]
fn portfolio_values_holdings() {
    let mut e = engine_with_meme();
    let p = e.get_user_portfolio(&"alice".to_string());
    assert_eq!(p.user, "alice");
    assert_eq!(p.holdings.len(), 1);
    // 200000 tokens at the opening price of 1.0
    assert_eq!(p.total_value_l1, (200_000 * U) as u128);
    assert_eq!(p.total_pnl, 0);
    e.buy_token_at(buy("MEME", "bob", 100_000 * U, 10_000), 100_000 * U, 1, 1).unwrap();
    let p = e.get_user_portfolio(&"alice".to_string());
    let price = e.get_token_info(&"MEME".to_string()).unwrap().price_in_l1;
    assert_eq!(p.total_value_l1, (200_000 * U) as u128 * price / 1_000);
    assert_eq!(p.total_pnl, p.total_value_l1 as i128 - (200_000 * U) as i128);
    let empty = e.get_user_portfolio(&"nobody".to_string());
    assert!(empty.holdings.is_empty());
    assert_eq!(empty.total_value_l1, 0);
}

#[test]
fn portfolio_sums_before_rounding() {
    let mut e = TokenLaunchSystem::new();
    // two tokens opening at a price of 0.001, the creator holding 200000.6
    // tokens of each: worth 200.0006 base units each, 400.0012 together
    for s in ["AAA", "BBB"] {
        let mut req = launch_request(s, 1_000_000, 1_000);
        req.initial_price = 1;
        req.total_supply = 1_000_000 * U + 3_000;
        e.launch_token_at(req, 10 * U, 1, 1).unwrap();
    }
    assert_eq!(held(&e, "alice", "AAA"), Some(200_000_600));
    let p = e.get_user_portfolio(&"alice".to_string());
    // 400001.2 sub-units rounded once, not 200000 + 200000
    assert_eq!(p.total_value_l1, 400_001);
    assert_eq!(p.total_pnl, 0);
}

#[test]
fn sell_paying_nothing_is_refused() {
    let mut e = engine_with_meme();
    // one sub-unit of the token is worth about 1.25 sub-units of base; the
    // fee rounds the payout to 0
    assert_eq!(e.sell_token_at(sell("MEME", "alice", 1, 10_000), 1, 1).err(), Some(EngineError::InvalidAmount));
    assert_eq!(held(&e, "alice", "MEME"), Some(200_000 * U));
}

#[test]
fn buy_then_sell_keeps_fee_in_pool() {
    let mut e = engine_with_meme();
    let (tokens0, base0) = (e.liquidity_pools[0].token_reserve, e.liquidity_pools[0].l1_reserve);
    let b = e.buy_token_at(buy("MEME", "bob", 50_000 * U, 10_000), 50_000 * U, 1, 1).unwrap();
    assert_eq!(e.liquidity_pools[0].l1_reserve, base0 + 50_000 * U);
    assert_eq!(e.liquidity_pools[0].token_reserve, tokens0 - b.amount);
    let s = e.sell_token_at(sell("MEME", "bob", b.amount, 10_000), 2, 2).unwrap();
    assert!(s.l1_amount < b.l1_amount);
    assert_eq!(e.liquidity_pools[0].token_reserve, tokens0);
    assert!(e.liquidity_pools[0].l1_reserve > base0);
}

#[test]
fn trade_ids_and_contract_addresses() {
    assert_eq!(trade_id(&"ABC".to_string(), 1234), "trade_ABC_1234");
    assert_eq!(trade_id(&"ABC".to_string(), 0), "trade_ABC_0");
    let addr = generate_contract_address(&"ABC".to_string(), &"alice".to_string(), 5);
    let expected = format!("token_{:x}", Sha256::digest(b"ABCalice5"));
    assert_eq!(addr, expected[..20]);
    assert_eq!(addr.len(), 20);
    assert_ne!(addr, generate_contract_address(&"ABC".to_string(), &"alice".to_string(), 6));
}

#[test]
fn contract_address_takes_fourteen_digest_digits() {
    assert_eq!(contract_address_from_digest("0123456789abcdefXYZ"), "token_0123456789abcd");
}
