use vstd::prelude::*;
use crate::error::EngineError;

verus! {

/// Sub-units in one whole token and in one whole unit of the base currency:
/// every amount in this library counts sub-units.
pub const UNIT: u64 = 1_000;

/// Fixed-point scale of every price: a price `p` stands for `p / PRICE_SCALE`
/// base currency per token (the same ratio in sub-units as in whole units).
pub const PRICE_SCALE: u64 = 1_000;

/// Fees are expressed in hundredths of a percent of the input amount.
pub const FEE_DENOMINATOR: u64 = 10_000;

/// Fee charged by a pool created at launch: 0.3%.
pub const DEFAULT_FEE_BPS: u64 = 30;

/// Slippage is expressed in hundredths of a percent: 100% is `SLIPPAGE_SCALE`.
pub const SLIPPAGE_SCALE: u64 = 10_000;

/// The largest token amount a pool or a token supply may hold: a million
/// million whole tokens.
pub const MAX_SUPPLY: u64 = 1_000_000_000_000 * UNIT;

/// The price with `base` base units against `token` token units, rounded down.
pub open spec fn price_of(base: int, token: int) -> int {
    base * PRICE_SCALE / token
}

/// What remains of `amount` once the fee is taken, rounded down.
pub open spec fn after_fee(amount: int, fee_bps: int) -> int {
    amount * (FEE_DENOMINATOR - fee_bps) / FEE_DENOMINATOR as int
}

pub open spec fn abs_diff(a: int, b: int) -> int {
    if a >= b { a - b } else { b - a }
}

/// Tokens paid out for `base_in`: the fee is taken from the input, then the
/// constant-product formula applies.
pub open spec fn buy_output(token_reserve: int, base_reserve: int, fee_bps: int, base_in: int) -> int {
    let f = after_fee(base_in, fee_bps);
    token_reserve * f / (base_reserve + f)
}

/// Base units paid out for `tokens_in`: the constant-product formula, then the
/// fee is taken from the result.
pub open spec fn sell_output(token_reserve: int, base_reserve: int, fee_bps: int, tokens_in: int) -> int {
    after_fee(base_reserve * tokens_in / (token_reserve + tokens_in), fee_bps)
}

/// Relative distance between a buy's effective price `base_in / out` and the
/// spot price `base_reserve / token_reserve`, in hundredths of a percent.
pub open spec fn buy_slippage(token_reserve: int, base_reserve: int, base_in: int, out: int) -> int {
    abs_diff(base_in * token_reserve, base_reserve * out) * SLIPPAGE_SCALE / (base_reserve * out)
}

/// Relative distance between the spot price and a sell's effective price
/// `out / tokens_in`, in hundredths of a percent.
pub open spec fn sell_slippage(token_reserve: int, base_reserve: int, tokens_in: int, out: int) -> int {
    abs_diff(base_reserve * tokens_in, out * token_reserve) * SLIPPAGE_SCALE / (base_reserve * tokens_in)
}

/// The outcome of pricing one trade against a pool.
#[derive(Debug, Clone, Copy, PartialEq, Eq, Structural)]
pub struct TradeQuote {
    /// Tokens received by a buy, base units received by a sell.
    pub amount_out: u64,
    /// Effective price of the trade, scaled by `PRICE_SCALE`.
    pub unit_price: u128,
    /// Slippage against the spot price, in hundredths of a percent, rounded
    /// down.
    pub slippage_bps: u128,
    /// The exact slippage is `slippage_num / slippage_den` hundredths of a
    /// percent.
    pub slippage_num: u128,
    pub slippage_den: u128,
}

impl TradeQuote {
    /// Whether the exact slippage exceeds `max_slippage_bps` hundredths of a
    /// percent.
    pub fn exceeds(&self, max_slippage_bps: u64) -> (r: bool)
        requires
            self.slippage_den > 0,
            self.slippage_bps == self.slippage_num / self.slippage_den,
        ensures
            r == (self.slippage_num > max_slippage_bps * self.slippage_den),
    {
        let rem = self.slippage_num % self.slippage_den;
        proof {
            let n = self.slippage_num as int;
            let d = self.slippage_den as int;
            let q = self.slippage_bps as int;
            let m = max_slippage_bps as int;
            assert(n == q * d + rem) by (nonlinear_arith)
                requires d > 0, q == n / d, rem == n % d;
            assert(0 <= rem < d) by (nonlinear_arith)
                requires d > 0, rem == n % d;
            if q > m {
                assert(n > m * d) by (nonlinear_arith)
                    requires n == q * d + rem, q >= m + 1, d > 0, rem >= 0;
            } else if q == m {
                assert(n == m * d + rem);
            } else {
                assert(n < m * d) by (nonlinear_arith)
                    requires n == q * d + rem, q + 1 <= m, d > 0, rem < d;
            }
        }
        self.slippage_bps > max_slippage_bps as u128 || (self.slippage_bps == max_slippage_bps as u128 && rem > 0)
    }
}

/// A constant-product pool pairing a token with the base currency.
pub struct LiquidityPool {
    pub token_symbol: String,
    pub token_reserve: u64,
    pub l1_reserve: u64,
    /// `token_reserve * l1_reserve` when the pool was created.
    pub k_constant: u128,
    /// Integer square root of `k_constant`.
    pub lp_token_supply: u64,
    /// Fee in hundredths of a percent of each trade's input.
    pub fee_bps: u64,
}

/// What `quote_buy` returns for a pool with these reserves and fee.
pub open spec fn buy_quote(token_reserve: int, base_reserve: int, fee_bps: int, base_in: int) -> Result<TradeQuote, EngineError> {
    let out = buy_output(token_reserve, base_reserve, fee_bps, base_in);
    if base_in == 0 {
        Err(EngineError::InvalidAmount)
    } else if base_reserve + base_in > u64::MAX {
        Err(EngineError::ReserveExhausted)
    } else if out == 0 {
        Err(EngineError::InvalidAmount)
    } else {
        Ok(TradeQuote {
            amount_out: out as u64,
            unit_price: (base_in * PRICE_SCALE / out) as u128,
            slippage_bps: buy_slippage(token_reserve, base_reserve, base_in, out) as u128,
            slippage_num: (abs_diff(base_in * token_reserve, base_reserve * out) * SLIPPAGE_SCALE) as u128,
            slippage_den: (base_reserve * out) as u128,
        })
    }
}

/// What `quote_sell` returns for a pool with these reserves and fee.
pub open spec fn sell_quote(token_reserve: int, base_reserve: int, fee_bps: int, tokens_in: int) -> Result<TradeQuote, EngineError> {
    let out = sell_output(token_reserve, base_reserve, fee_bps, tokens_in);
    if tokens_in == 0 {
        Err(EngineError::InvalidAmount)
    } else if token_reserve + tokens_in > MAX_SUPPLY {
        Err(EngineError::ReserveExhausted)
    } else if out == 0 {
        Err(EngineError::InvalidAmount)
    } else {
        Ok(TradeQuote {
            amount_out: out as u64,
            unit_price: (out * PRICE_SCALE / tokens_in) as u128,
            slippage_bps: sell_slippage(token_reserve, base_reserve, tokens_in, out) as u128,
            slippage_num: (abs_diff(base_reserve * tokens_in, out * token_reserve) * SLIPPAGE_SCALE) as u128,
            slippage_den: (base_reserve * tokens_in) as u128,
        })
    }
}

proof fn lemma_after_fee_bounds(amount: int, fee_bps: int)
    requires
        0 <= amount,
        0 <= fee_bps <= FEE_DENOMINATOR,
    ensures
        0 <= after_fee(amount, fee_bps) <= amount,
        fee_bps > 0 && amount > 0 ==> after_fee(amount, fee_bps) < amount,
{
    let d = FEE_DENOMINATOR as int;
    let k = d - fee_bps;
    assert(0 <= amount * k <= amount * d) by (nonlinear_arith)
        requires 0 <= amount, 0 <= k <= d;
    assert((amount * d) / d == amount) by (nonlinear_arith)
        requires d > 0;
    assert(amount * k / d <= amount * d / d) by (nonlinear_arith)
        requires amount * k <= amount * d, d > 0;
    if fee_bps > 0 && amount > 0 {
        assert(amount * k < amount * d) by (nonlinear_arith)
            requires amount > 0, k < d;
        assert(amount * k / d < amount) by (nonlinear_arith)
            requires amount * k < amount * d, d > 0;
    }
}

/// `num * x / (den + x) < num` whenever `den > 0`.
proof fn lemma_share_below(num: int, x: int, den: int)
    requires
        num > 0,
        x >= 0,
        den > 0,
    ensures
        0 <= num * x / (den + x) < num,
{
    assert(num * x < num * (den + x)) by (nonlinear_arith)
        requires num > 0, den > 0;
    assert(0 <= num * x) by (nonlinear_arith)
        requires num > 0, x >= 0;
    assert(num * x / (den + x) < num) by (nonlinear_arith)
        requires num * x < num * (den + x), den + x > 0;
    assert(0 <= num * x / (den + x)) by (nonlinear_arith)
        requires 0 <= num * x, den + x > 0;
}

impl LiquidityPool {
    /// Reserves are positive, the token side is bounded, the fee is a fraction.
    pub open spec fn wf(&self) -> bool {
        &&& 0 < self.token_reserve <= MAX_SUPPLY
        &&& 0 < self.l1_reserve
        &&& self.fee_bps <= FEE_DENOMINATOR
    }

    /// Creates a pool holding the given reserves; `k_constant` records their
    /// product and `lp_token_supply` its integer square root.
    pub fn new(token_symbol: String, token_reserve: u64, l1_reserve: u64, fee_bps: u64) -> (r: Self)
        requires
            0 < token_reserve <= MAX_SUPPLY,
            0 < l1_reserve,
            fee_bps <= FEE_DENOMINATOR,
        ensures
            r.wf(),
            r.token_symbol == token_symbol,
            r.token_reserve == token_reserve,
            r.l1_reserve == l1_reserve,
            r.fee_bps == fee_bps,
            r.k_constant == token_reserve * l1_reserve,
            r.lp_token_supply * r.lp_token_supply <= r.k_constant,
            r.k_constant < (r.lp_token_supply + 1) * (r.lp_token_supply + 1),
    {
        assert(token_reserve as int * l1_reserve as int <= MAX_SUPPLY as int * u64::MAX as int) by (nonlinear_arith)
            requires 0 <= token_reserve <= MAX_SUPPLY, 0 <= l1_reserve <= u64::MAX;
        let k = token_reserve as u128 * l1_reserve as u128;
        let root = isqrt(k);
        LiquidityPool { token_symbol, token_reserve, l1_reserve, k_constant: k, lp_token_supply: root, fee_bps }
    }

    /// Spot price `l1_reserve / token_reserve`, scaled by `PRICE_SCALE`.
    pub fn spot_price(&self) -> (r: u128)
        requires
            self.wf(),
        ensures
            r == price_of(self.l1_reserve as int, self.token_reserve as int),
    {
        (self.l1_reserve as u128 * PRICE_SCALE as u128) / self.token_reserve as u128
    }

    /// Prices a buy of `base_in` base units without changing the pool.
    pub fn quote_buy(&self, base_in: u64) -> (r: Result<TradeQuote, EngineError>)
        requires
            self.wf(),
        ensures
            r == buy_quote(self.token_reserve as int, self.l1_reserve as int, self.fee_bps as int, base_in as int),
            r is Ok ==> 0 < r->Ok_0.amount_out < self.token_reserve,
            r is Ok ==> r->Ok_0.slippage_den > 0 && r->Ok_0.slippage_bps == r->Ok_0.slippage_num / r->Ok_0.slippage_den,
    {
        if base_in == 0 {
            return Err(EngineError::InvalidAmount);
        }
        if base_in > u64::MAX - self.l1_reserve {
            return Err(EngineError::ReserveExhausted);
        }
        let tr = self.token_reserve as u128;
        let br = self.l1_reserve as u128;
        let keep = (FEE_DENOMINATOR - self.fee_bps) as u128;
        proof {
            lemma_after_fee_bounds(base_in as int, self.fee_bps as int);
            assert(base_in as int * keep <= u64::MAX as int * FEE_DENOMINATOR as int) by (nonlinear_arith)
                requires base_in <= u64::MAX, keep <= FEE_DENOMINATOR;
        }
        let f = (base_in as u128 * keep) / FEE_DENOMINATOR as u128;
        assert(f == after_fee(base_in as int, self.fee_bps as int));
        proof {
            assert(tr * f <= MAX_SUPPLY as int * u64::MAX as int) by (nonlinear_arith)
                requires tr <= MAX_SUPPLY, f <= u64::MAX;
            lemma_share_below(tr as int, f as int, br as int);
        }
        let out128 = (tr * f) / (br + f);
        if out128 == 0 {
            return Err(EngineError::InvalidAmount);
        }
        let out = out128 as u64;
        proof {
            assert(base_in as int * tr as int <= u64::MAX as int * MAX_SUPPLY as int) by (nonlinear_arith)
                requires 0 <= base_in <= u64::MAX, 0 <= tr <= MAX_SUPPLY;
            assert(br as int * out128 as int <= u64::MAX as int * MAX_SUPPLY as int) by (nonlinear_arith)
                requires 0 <= br <= u64::MAX, 0 <= out128 <= MAX_SUPPLY;
            assert(br as int * out128 as int > 0) by (nonlinear_arith)
                requires br > 0, out128 > 0;
        }
        let a = base_in as u128 * tr;
        let b = br * out128;
        proof {
            assert(base_in as int * PRICE_SCALE as int <= u64::MAX as int * PRICE_SCALE as int) by (nonlinear_arith)
                requires base_in <= u64::MAX;
            assert(base_in as int * PRICE_SCALE as int / out128 as int <= base_in as int * PRICE_SCALE as int) by (nonlinear_arith)
                requires out128 >= 1, base_in >= 0;
        }
        let diff = if a >= b { a - b } else { b - a };
        let slip = (diff * SLIPPAGE_SCALE as u128) / b;
        proof {
            assert(slip <= diff * SLIPPAGE_SCALE as int) by (nonlinear_arith)
                requires b >= 1, diff >= 0, slip == (diff * SLIPPAGE_SCALE as int) / b as int;
        }
        let price = (base_in as u128 * PRICE_SCALE as u128) / out128;
        Ok(TradeQuote { amount_out: out, unit_price: price, slippage_bps: slip, slippage_num: diff * SLIPPAGE_SCALE as u128, slippage_den: b })
    }

    /// Prices a sell of `tokens_in` token units without changing the pool.
    pub fn quote_sell(&self, tokens_in: u64) -> (r: Result<TradeQuote, EngineError>)
        requires
            self.wf(),
        ensures
            r == sell_quote(self.token_reserve as int, self.l1_reserve as int, self.fee_bps as int, tokens_in as int),
            r is Ok ==> 0 < r->Ok_0.amount_out < self.l1_reserve,
            r is Ok ==> r->Ok_0.slippage_den > 0 && r->Ok_0.slippage_bps == r->Ok_0.slippage_num / r->Ok_0.slippage_den,
    {
        if tokens_in == 0 {
            return Err(EngineError::InvalidAmount);
        }
        if tokens_in > MAX_SUPPLY - self.token_reserve {
            return Err(EngineError::ReserveExhausted);
        }
        let tr = self.token_reserve as u128;
        let br = self.l1_reserve as u128;
        let tin = tokens_in as u128;
        proof {
            assert(br * tin <= u64::MAX as int * MAX_SUPPLY as int) by (nonlinear_arith)
                requires br <= u64::MAX, tin <= MAX_SUPPLY;
            lemma_share_below(br as int, tin as int, tr as int);
        }
        let gross = (br * tin) / (tr + tin);
        let keep = (FEE_DENOMINATOR - self.fee_bps) as u128;
        proof {
            lemma_after_fee_bounds(gross as int, self.fee_bps as int);
            assert(gross as int * keep <= u64::MAX as int * FEE_DENOMINATOR as int) by (nonlinear_arith)
                requires gross <= u64::MAX, keep <= FEE_DENOMINATOR;
        }
        let out128 = (gross * keep) / FEE_DENOMINATOR as u128;
        assert(out128 == sell_output(tr as int, br as int, self.fee_bps as int, tin as int));
        if out128 == 0 {
            return Err(EngineError::InvalidAmount);
        }
        let out = out128 as u64;
        proof {
            assert(out128 as int * tr as int <= u64::MAX as int * MAX_SUPPLY as int) by (nonlinear_arith)
                requires 0 <= out128 <= u64::MAX, 0 <= tr <= MAX_SUPPLY;
            assert(br as int * tin as int > 0) by (nonlinear_arith)
                requires br > 0, tin > 0;
        }
        let a = br * tin;
        let b = out128 * tr;
        proof {
            assert(out128 as int * PRICE_SCALE as int / tin as int <= out128 as int * PRICE_SCALE as int) by (nonlinear_arith)
                requires tin >= 1, out128 >= 0;
        }
        let diff = if a >= b { a - b } else { b - a };
        let slip = (diff * SLIPPAGE_SCALE as u128) / a;
        proof {
            assert(slip <= diff * SLIPPAGE_SCALE as int) by (nonlinear_arith)
                requires a >= 1, diff >= 0, slip == (diff * SLIPPAGE_SCALE as int) / a as int;
        }
        let price = (out128 * PRICE_SCALE as u128) / tin;
        Ok(TradeQuote { amount_out: out, unit_price: price, slippage_bps: slip, slippage_num: diff * SLIPPAGE_SCALE as u128, slippage_den: a })
    }
}

/// What a buy with slippage bound `max_slippage_bps` returns: the quote, or
/// `SlippageExceeded` carrying the computed slippage.
pub open spec fn bounded(quote: Result<TradeQuote, EngineError>, max_slippage_bps: int) -> Result<TradeQuote, EngineError> {
    match quote {
        Ok(q) => if q.slippage_num > max_slippage_bps * q.slippage_den {
            Err(EngineError::SlippageExceeded(q.slippage_bps))
        } else {
            Ok(q)
        },
        Err(e) => Err(e),
    }
}

impl LiquidityPool {
    /// Spends `base_in` base units on tokens. On success the base reserve grows
    /// by `base_in` and the token reserve shrinks by the tokens paid out; on
    /// failure the pool is unchanged.
    pub fn buy(&mut self, base_in: u64, max_slippage_bps: u64) -> (r: Result<TradeQuote, EngineError>)
        requires
            old(self).wf(),
        ensures
            r == bounded(buy_quote(old(self).token_reserve as int, old(self).l1_reserve as int, old(self).fee_bps as int, base_in as int), max_slippage_bps as int),
            final(self).wf(),
            r is Err ==> *final(self) == *old(self),
            r is Ok ==> final(self).l1_reserve == old(self).l1_reserve + base_in
                && final(self).token_reserve == old(self).token_reserve - r->Ok_0.amount_out
                && final(self).token_symbol == old(self).token_symbol
                && final(self).k_constant == old(self).k_constant
                && final(self).lp_token_supply == old(self).lp_token_supply
                && final(self).fee_bps == old(self).fee_bps,
    {
        let q = match self.quote_buy(base_in) {
            Ok(q) => q,
            Err(e) => return Err(e),
        };
        if q.exceeds(max_slippage_bps) {
            return Err(EngineError::SlippageExceeded(q.slippage_bps));
        }
        self.l1_reserve = self.l1_reserve + base_in;
        self.token_reserve = self.token_reserve - q.amount_out;
        Ok(q)
    }

    /// Sells `tokens_in` tokens for base units. On success the token reserve
    /// grows by `tokens_in` and the base reserve shrinks by the amount paid
    /// out; on failure the pool is unchanged.
    pub fn sell(&mut self, tokens_in: u64, max_slippage_bps: u64) -> (r: Result<TradeQuote, EngineError>)
        requires
            old(self).wf(),
        ensures
            r == bounded(sell_quote(old(self).token_reserve as int, old(self).l1_reserve as int, old(self).fee_bps as int, tokens_in as int), max_slippage_bps as int),
            final(self).wf(),
            r is Err ==> *final(self) == *old(self),
            r is Ok ==> final(self).token_reserve == old(self).token_reserve + tokens_in
                && final(self).l1_reserve == old(self).l1_reserve - r->Ok_0.amount_out
                && final(self).token_symbol == old(self).token_symbol
                && final(self).k_constant == old(self).k_constant
                && final(self).lp_token_supply == old(self).lp_token_supply
                && final(self).fee_bps == old(self).fee_bps,
    {
        let q = match self.quote_sell(tokens_in) {
            Ok(q) => q,
            Err(e) => return Err(e),
        };
        if q.exceeds(max_slippage_bps) {
            return Err(EngineError::SlippageExceeded(q.slippage_bps));
        }
        self.token_reserve = self.token_reserve + tokens_in;
        self.l1_reserve = self.l1_reserve - q.amount_out;
        Ok(q)
    }
}

/// Round trip through a pool: buying with `base_in` and at once selling every
/// token received returns strictly less base currency than was paid, whenever
/// the pool charges a fee. (A sell back whose payout would round to nothing
/// is refused.)
pub proof fn lemma_round_trip_loses_fee(pool_tokens: u64, pool_base: u64, fee: u64, paid: u64)
    requires
        0 < pool_tokens <= MAX_SUPPLY,
        0 < pool_base,
        0 < fee <= FEE_DENOMINATOR,
        buy_quote(pool_tokens as int, pool_base as int, fee as int, paid as int) is Ok,
    ensures
        ({
            let out = buy_quote(pool_tokens as int, pool_base as int, fee as int, paid as int)->Ok_0.amount_out as int;
            let back = sell_quote(pool_tokens - out, pool_base + paid, fee as int, out);
            &&& 0 < out < pool_tokens
            &&& (back is Ok <==> sell_output(pool_tokens - out, pool_base + paid, fee as int, out) > 0)
            &&& sell_output(pool_tokens - out, pool_base + paid, fee as int, out) < paid
            &&& (back is Ok ==> back->Ok_0.amount_out < paid)
        }),
{
    let token_reserve = pool_tokens as int;
    let base_reserve = pool_base as int;
    let fee_bps = fee as int;
    let base_in = paid as int;
    let f = after_fee(base_in, fee_bps);
    lemma_after_fee_bounds(base_in, fee_bps);
    let out = buy_output(token_reserve, base_reserve, fee_bps, base_in);
    lemma_share_below(token_reserve, f, base_reserve);
    let tr = token_reserve;
    let br = base_reserve;
    let b = base_in;
    assert(out * (br + f) <= tr * f) by (nonlinear_arith)
        requires out == tr * f / (br + f), br + f > 0;
    assert((br + b) * f <= b * (br + f)) by (nonlinear_arith)
        requires 0 <= f <= b, br > 0;
    assert((br + b) * out * (br + f) <= b * tr * (br + f)) by (nonlinear_arith)
        requires out * (br + f) <= tr * f, (br + b) * f <= b * (br + f), br + b > 0, tr > 0, out >= 0;
    assert((br + b) * out <= b * tr) by (nonlinear_arith)
        requires (br + b) * out * (br + f) <= b * tr * (br + f), br + f > 0;
    let gross = (br + b) * out / ((tr - out) + out);
    assert(gross <= b) by (nonlinear_arith)
        requires gross == (br + b) * out / tr, (br + b) * out <= b * tr, tr > 0;
    assert(gross >= 0) by (nonlinear_arith)
        requires gross == (br + b) * out / tr, br + b > 0, out >= 0, tr > 0;
    lemma_after_fee_bounds(gross, fee_bps);
}

/// Integer square root: the largest `r` with `r * r <= n`.
pub fn isqrt(n: u128) -> (r: u64)
    ensures
        r * r <= n,
        n < (r + 1) * (r + 1),
{
    let mut lo: u128 = 0;
    let mut hi: u128 = 0x1_0000_0000_0000_0000;
    assert(n < hi * hi) by (nonlinear_arith)
        requires n <= u128::MAX, hi == 0x1_0000_0000_0000_0000u128;
    while lo + 1 < hi
        invariant
            lo < hi <= 0x1_0000_0000_0000_0000u128,
            lo * lo <= n,
            n < hi * hi,
        decreases hi - lo,
    {
        let mid = lo + (hi - lo) / 2;
        if mid <= n / mid {
            assert(mid * mid <= n) by (nonlinear_arith)
                requires mid > 0, mid <= n / mid;
            lo = mid;
        } else {
            assert(n < mid * mid) by (nonlinear_arith)
                requires mid > 0, mid > n / mid;
            hi = mid;
        }
    }
    lo as u64
}

} // verus!
