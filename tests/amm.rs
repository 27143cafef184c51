use launchpad::amm::{isqrt, LiquidityPool, DEFAULT_FEE_BPS, MAX_SUPPLY, UNIT};
use launchpad::error::EngineError;

fn pool(tokens: u64, base: u64, fee: u64) -> LiquidityPool {
    LiquidityPool::new("TKN".to_string(), tokens, base, fee)
}

#[test]
fn slippage_rejection_leaves_pool_unchanged() {
    // reserves of 1000 tokens and 1000 base, no fee, a buy of 100 base
    let mut p = pool(1000 * UNIT, 1000 * UNIT, 0);
    let q = p.quote_buy(100 * UNIT).unwrap();
    assert_eq!(q.amount_out, 90_909); // 90.909 tokens
    assert_eq!(q.slippage_bps, 1000); // 10.00%
    assert_eq!(q.unit_price, 1_100); // 1.1
    let r = p.buy(100 * UNIT, 500);
    assert_eq!(r, Err(EngineError::SlippageExceeded(1000)));
    assert_eq!(p.token_reserve, 1000 * UNIT);
    assert_eq!(p.l1_reserve, 1000 * UNIT);
}

#[test]
fn slippage_bound_compares_exact_value() {
    // the exact slippage is a little above 10.00%, so a bound of 10.00% refuses
    let mut p = pool(1000 * UNIT, 1000 * UNIT, 0);
    assert_eq!(p.buy(100 * UNIT, 1000), Err(EngineError::SlippageExceeded(1000)));
    assert!(p.buy(100 * UNIT, 1001).is_ok());
}

#[test]
fn buy_within_slippage_moves_reserves() {
    let mut p = pool(1000 * UNIT, 1000 * UNIT, 0);
    let q = p.buy(100 * UNIT, 2000).unwrap();
    assert_eq!(q.amount_out, 90_909);
    assert_eq!(q.unit_price, 1_100); // 1.1 base per token
    assert_eq!(p.token_reserve, 1000 * UNIT - 90_909);
    assert_eq!(p.l1_reserve, 1100 * UNIT);
}

#[test]
fn round_trip_loses_fee() {
    let mut p = pool(800_000 * UNIT, 1_000 * UNIT, DEFAULT_FEE_BPS);
    let paid = 50 * UNIT;
    let bought = p.buy(paid, u64::MAX).unwrap();
    let back = p.sell(bought.amount_out, u64::MAX).unwrap();
    assert!(back.amount_out < paid);
    assert_eq!(p.token_reserve, 800_000 * UNIT);
    assert!(p.l1_reserve > 1_000 * UNIT);
}

#[test]
fn sell_quote_formula() {
    // selling 100 tokens into 1000/1000 pays 1000 * 100 / 1100 = 90.909 base
    let p = pool(1000 * UNIT, 1000 * UNIT, 0);
    let q = p.quote_sell(100 * UNIT).unwrap();
    assert_eq!(q.amount_out, 90_909);
    assert_eq!(q.unit_price, 909);
    assert_eq!(q.slippage_bps, 909); // 9.09%
    let fee = pool(1000 * UNIT, 1000 * UNIT, 30);
    assert_eq!(fee.quote_sell(100 * UNIT).unwrap().amount_out, 90_636); // less 0.3%, rounded down
}

#[test]
fn quote_errors() {
    let p = pool(1000, 1000, 30);
    assert_eq!(p.quote_buy(0), Err(EngineError::InvalidAmount));
    assert_eq!(p.quote_buy(1), Err(EngineError::InvalidAmount)); // yields nothing
    assert_eq!(p.quote_buy(u64::MAX), Err(EngineError::ReserveExhausted));
    assert_eq!(p.quote_sell(0), Err(EngineError::InvalidAmount));
    let full = pool(MAX_SUPPLY, 1000, 30);
    assert_eq!(full.quote_sell(1), Err(EngineError::ReserveExhausted));
}

#[test]
fn pool_creation_records_k_and_root() {
    let p = pool(800_000, 1_000_000, DEFAULT_FEE_BPS);
    assert_eq!(p.k_constant, 800_000_000_000);
    assert_eq!(p.lp_token_supply, 894_427);
    assert_eq!(p.spot_price(), 1_250);
}

#[test]
fn integer_square_root() {
    assert_eq!(isqrt(0), 0);
    assert_eq!(isqrt(15), 3);
    assert_eq!(isqrt(16), 4);
    assert_eq!(isqrt(u128::MAX), u64::MAX);
}
