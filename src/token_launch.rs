use vstd::prelude::*;
use vstd::string::{StrSliceExecFns, StringExecFns};
use crate::amm::{
    bounded, buy_quote, lemma_round_trip_loses_fee, price_of, sell_quote, LiquidityPool, DEFAULT_FEE_BPS, MAX_SUPPLY,
    PRICE_SCALE, UNIT,
};
use crate::clock::unix_millis;
use crate::digest::{sha256_hex, sha256_hex_of};
use crate::error::EngineError;
use crate::holdings::{credited, debited, HoldingsLedger, LedgerEntry, TokenHolding, MAX_PRICE};
use crate::text::{append_decimal, decimal};

verus! {

/// The smallest total supply a token may be launched with: a million whole
/// tokens.
pub const MIN_SUPPLY: u64 = 1_000_000 * UNIT;

/// Lifecycle of a token. Only `Launching` moves on its own, after a trade.
#[derive(Debug, Clone, Copy, PartialEq, Eq, Structural)]
pub enum TokenStatus {
    /// Just created, building liquidity.
    Launching,
    /// Enough liquidity to trade actively.
    Trading,
    /// Market cap reached the graduation threshold; final.
    Graduated,
    /// Trading suspended by an administrator.
    Paused,
    /// Flagged as suspicious by an administrator.
    Rugpulled,
}

#[derive(Debug, Clone, Copy, PartialEq, Eq, Structural)]
pub enum TradeType {
    Buy,
    Sell,
}

/// A launched token. `holders_count` counts first acquisitions (the
/// creator's at launch, then each buyer's first buy) and is never
/// decremented, so it can exceed the number of live holders.
pub struct Token {
    pub symbol: String,
    pub name: String,
    pub description: String,
    pub creator: String,
    pub total_supply: u64,
    /// Tokens bought from the pool minus tokens sold back to it.
    pub circulating_supply: i64,
    pub created_at: u64,
    pub image_url: Option<String>,
    pub website: Option<String>,
    pub twitter: Option<String>,
    pub telegram: Option<String>,
    pub contract_address: String,
    pub is_verified: bool,
    /// `circulating_supply * price_in_l1`, in base units.
    pub market_cap: i128,
    /// Price in base units per token, scaled by `PRICE_SCALE`.
    pub price_in_l1: u128,
    /// Base reserve of the token's pool after the last trade.
    pub liquidity_pool: u64,
    pub holders_count: usize,
    pub trade_count: u64,
    pub status: TokenStatus,
}

/// The record of one executed trade.
pub struct TokenTrade {
    pub id: String,
    pub token_symbol: String,
    pub trader: String,
    pub trade_type: TradeType,
    /// Tokens bought or sold.
    pub amount: u64,
    /// Effective unit price, scaled by `PRICE_SCALE`.
    pub price: u128,
    /// Base units paid (buy) or received (sell).
    pub l1_amount: u64,
    pub timestamp: u64,
    /// Slippage in hundredths of a percent.
    pub slippage: u128,
}

pub struct LaunchTokenRequest {
    pub symbol: String,
    pub name: String,
    pub description: String,
    pub creator: String,
    pub total_supply: u64,
    /// Opening price, scaled by `PRICE_SCALE`.
    pub initial_price: u64,
    /// Base units seeded into the pool.
    pub initial_liquidity: u64,
    pub image_url: Option<String>,
    pub website: Option<String>,
    pub twitter: Option<String>,
    pub telegram: Option<String>,
}

pub struct BuyTokenRequest {
    pub token_symbol: String,
    pub buyer: String,
    /// Base units to spend.
    pub l1_amount: u64,
    /// Largest accepted slippage, in hundredths of a percent.
    pub max_slippage: u64,
}

pub struct SellTokenRequest {
    pub token_symbol: String,
    pub seller: String,
    pub token_amount: u64,
    /// Largest accepted slippage, in hundredths of a percent.
    pub max_slippage: u64,
}

/// A user's holdings valued at current prices.
pub struct UserPortfolioResponse {
    pub user: String,
    pub holdings: Vec<TokenHolding>,
    /// Sum of `amount * price_in_l1` over the holdings, divided once by
    /// `PRICE_SCALE` (rounded down): base-currency sub-units.
    pub total_value_l1: u128,
    /// Sum of `amount * (price_in_l1 - average_price)`, divided once by
    /// `PRICE_SCALE` (rounded toward zero): base-currency sub-units.
    pub total_pnl: i128,
}

/// A page of tokens with the number of tokens listed.
pub struct TokenListResponse {
    pub tokens: Vec<Token>,
    pub total_count: usize,
}

/// One point of a token's price history.
pub struct PricePoint {
    pub timestamp: u64,
    /// Price, scaled by `PRICE_SCALE`.
    pub price: u128,
    /// Base units traded.
    pub volume: u64,
}

/// A token with its latest trades and price history.
pub struct TokenStatsResponse {
    pub token: Token,
    pub recent_trades: Vec<TokenTrade>,
    pub price_chart: Vec<PricePoint>,
}

/// The exchange engine: tokens, their pools, every holding and the trade log.
/// `tokens[i]` and `liquidity_pools[i]` belong to the same symbol.
pub struct TokenLaunchSystem {
    pub tokens: Vec<Token>,
    pub token_holdings: HoldingsLedger,
    pub liquidity_pools: Vec<LiquidityPool>,
    /// Every executed trade, oldest first; the log is never pruned.
    pub recent_trades: Vec<TokenTrade>,
    /// Base units a creator must hold to launch a token.
    pub launch_fee: u64,
    /// Pool base reserve at which a launching token starts trading.
    pub min_liquidity: u64,
    /// Market cap at which a launching token graduates.
    pub graduation_threshold: u64,
}

/// Tokens placed in the pool at launch: four fifths of the supply.
pub open spec fn launch_reserve(total_supply: int) -> int {
    total_supply * 4 / 5
}

/// Tokens credited to the creator at launch: the rest of the supply.
pub open spec fn creator_allocation(total_supply: int) -> int {
    total_supply - launch_reserve(total_supply)
}

/// `circulating * price`, rounded toward zero, in base units.
pub open spec fn market_cap_of(circulating: int, price: int) -> int {
    if circulating >= 0 {
        circulating * price / PRICE_SCALE as int
    } else {
        -((-circulating) * price / PRICE_SCALE as int)
    }
}

/// The status after a trade: only a launching token moves, to `Graduated`
/// once its market cap reaches the threshold, else to `Trading` once its
/// pool holds the minimum liquidity.
pub open spec fn next_status(status: TokenStatus, market_cap: int, liquidity: int, graduation_threshold: int, min_liquidity: int) -> TokenStatus {
    match status {
        TokenStatus::Launching => if market_cap >= graduation_threshold {
            TokenStatus::Graduated
        } else if liquidity >= min_liquidity {
            TokenStatus::Trading
        } else {
            TokenStatus::Launching
        },
        _ => status,
    }
}

/// `n + 1`, held at the largest value.
pub open spec fn bump(n: int, max: int) -> int {
    if n < max { n + 1 } else { n }
}

/// The identifier of a trade of `symbol` made at `millis`.
pub open spec fn trade_id_of(symbol: Seq<char>, millis: nat) -> Seq<char> {
    "trade_"@ + symbol + "_"@ + decimal(millis)
}

/// The contract address of a token: `token_` and the first fourteen hex
/// digits of the SHA-256 digest of symbol, creator and launch time.
pub open spec fn contract_address_of(symbol: Seq<char>, creator: Seq<char>, millis: nat) -> Seq<char> {
    "token_"@ + sha256_hex(symbol + creator + decimal(millis)).subrange(0, 14)
}

/// A token after a trade that left its pool with reserves `pool_base`,
/// `pool_tokens` and changed its circulating supply to `circulating`.
pub open spec fn after_trade(t: Token, circulating: int, pool_base: int, pool_tokens: int, new_holder: bool, graduation_threshold: int, min_liquidity: int) -> Token {
    let price = price_of(pool_base, pool_tokens);
    let cap = market_cap_of(circulating, price);
    Token {
        circulating_supply: circulating as i64,
        price_in_l1: price as u128,
        market_cap: cap as i128,
        liquidity_pool: pool_base as u64,
        trade_count: bump(t.trade_count as int, u64::MAX as int) as u64,
        holders_count: (if new_holder { bump(t.holders_count as int, usize::MAX as int) } else { t.holders_count as int }) as usize,
        status: next_status(t.status, cap, pool_base, graduation_threshold, min_liquidity),
        ..t
    }
}


/// Whether token `a` ranks before token `b` among trending tokens: more
/// trades first, and on a tie the earlier launch.
pub open spec fn ranks_before(ts: Seq<Token>, a: int, b: int) -> bool {
    ts[a].trade_count > ts[b].trade_count || (ts[a].trade_count == ts[b].trade_count && a < b)
}

/// `out` lists the tokens at positions `idx` of `ts`, in ranking order, and
/// every token left out ranks after all of them.
pub open spec fn trending_choice(ts: Seq<Token>, idx: Seq<int>, out: Seq<Token>) -> bool {
    &&& idx.len() == out.len()
    &&& forall|k: int| 0 <= k < idx.len() ==> 0 <= #[trigger] idx[k] < ts.len() && out[k] == ts[idx[k]]
    &&& forall|k: int, l: int| 0 <= k < l < idx.len() ==> ranks_before(ts, #[trigger] idx[k], #[trigger] idx[l])
    &&& forall|j: int, k: int| 0 <= j < ts.len() && !idx.contains(j) && 0 <= k < idx.len() ==> #[trigger] ranks_before(ts, idx[k], j)
}

/// `x` held within `lo ..= hi`.
pub open spec fn clamp(x: int, lo: int, hi: int) -> int {
    if x < lo { lo } else if x > hi { hi } else { x }
}

/// `x` divided by `d`, rounded toward zero.
pub open spec fn div_toward_zero(x: int, d: int) -> int {
    if x >= 0 { x / d } else { -((-x) / d) }
}

fn copy_text(o: &Option<String>) -> (r: Option<String>)
    ensures
        r == *o,
{
    match o {
        Some(s) => Some(s.clone()),
        None => None,
    }
}

impl Token {
    /// A copy of this token.
    pub fn snapshot(&self) -> (r: Token)
        ensures
            r == *self,
    {
        Token {
            symbol: self.symbol.clone(),
            name: self.name.clone(),
            description: self.description.clone(),
            creator: self.creator.clone(),
            total_supply: self.total_supply,
            circulating_supply: self.circulating_supply,
            created_at: self.created_at,
            image_url: copy_text(&self.image_url),
            website: copy_text(&self.website),
            twitter: copy_text(&self.twitter),
            telegram: copy_text(&self.telegram),
            contract_address: self.contract_address.clone(),
            is_verified: self.is_verified,
            market_cap: self.market_cap,
            price_in_l1: self.price_in_l1,
            liquidity_pool: self.liquidity_pool,
            holders_count: self.holders_count,
            trade_count: self.trade_count,
            status: self.status,
        }
    }
}

impl TokenTrade {
    /// A copy of this trade record.
    pub fn snapshot(&self) -> (r: TokenTrade)
        ensures
            r == *self,
    {
        TokenTrade {
            id: self.id.clone(),
            token_symbol: self.token_symbol.clone(),
            trader: self.trader.clone(),
            trade_type: self.trade_type,
            amount: self.amount,
            price: self.price,
            l1_amount: self.l1_amount,
            timestamp: self.timestamp,
            slippage: self.slippage,
        }
    }
}

impl TokenLaunchSystem {
    /// What a successful launch of `req`, returning `token` at `now_secs`,
    /// did to the engine: the token was appended, launching, with nothing in
    /// circulation and its creator counted as its first holder; a pool of four
    /// fifths of the supply and the seed liquidity at the default fee was
    /// appended; the creator was credited with the rest at the opening price.
    pub open spec fn launched(&self, after: Self, req: LaunchTokenRequest, token: Token, now_secs: u64) -> bool {
        let alloc = creator_allocation(req.total_supply as int);
        &&& token == (Token {
            symbol: req.symbol,
            name: req.name,
            description: req.description,
            creator: req.creator,
            total_supply: req.total_supply,
            circulating_supply: 0,
            created_at: now_secs,
            image_url: req.image_url,
            website: req.website,
            twitter: req.twitter,
            telegram: req.telegram,
            contract_address: token.contract_address,
            is_verified: false,
            market_cap: 0,
            price_in_l1: req.initial_price as u128,
            liquidity_pool: 0,
            holders_count: 1,
            trade_count: 0,
            status: TokenStatus::Launching,
        })
        &&& after.tokens@ == self.tokens@.push(token)
        &&& after.liquidity_pools@.len() == self.liquidity_pools@.len() + 1
        &&& forall|i: int| 0 <= i < self.liquidity_pools@.len() ==> after.liquidity_pools@[i] == self.liquidity_pools@[i]
        &&& after.liquidity_pools@.last().token_symbol == req.symbol
        &&& after.liquidity_pools@.last().token_reserve == launch_reserve(req.total_supply as int)
        &&& after.liquidity_pools@.last().l1_reserve == req.initial_liquidity
        &&& after.liquidity_pools@.last().fee_bps == DEFAULT_FEE_BPS
        &&& after.liquidity_pools@.last().k_constant == after.liquidity_pools@.last().token_reserve * after.liquidity_pools@.last().l1_reserve
        &&& after.token_holdings.entries@ == self.token_holdings.entries@.push(LedgerEntry {
            owner: req.creator,
            holding: TokenHolding {
                token_symbol: req.symbol,
                amount: alloc as u64,
                acquired_at: now_secs,
                average_price: req.initial_price as u128,
            },
        })
        &&& forall|o: Seq<char>, s: Seq<char>| #[trigger] after.token_holdings.held(o, s)
            == self.token_holdings.held(o, s) + (if o == req.creator@ && s == req.symbol@ { alloc } else { 0 })
        &&& after.recent_trades == self.recent_trades
        &&& after.launch_fee == self.launch_fee
        &&& after.min_liquidity == self.min_liquidity
        &&& after.graduation_threshold == self.graduation_threshold
    }

    /// What a successful buy of `req`, recorded as `trade` at `now_secs`, did
    /// to the engine: the pool took the base units and paid out the quoted
    /// tokens, the token's supply, price, market cap, liquidity, counters and
    /// status followed, the buyer was credited and the trade was logged.
    pub open spec fn bought(&self, after: Self, req: BuyTokenRequest, trade: TokenTrade, now_secs: u64) -> bool {
        let i = self.index_of(req.token_symbol@);
        let p = self.liquidity_pools@[i];
        let tok = self.tokens@[i];
        let q = buy_quote(p.token_reserve as int, p.l1_reserve as int, p.fee_bps as int, req.l1_amount as int)->Ok_0;
        &&& trade == (TokenTrade {
            id: trade.id,
            token_symbol: req.token_symbol,
            trader: req.buyer,
            trade_type: TradeType::Buy,
            amount: q.amount_out,
            price: q.unit_price,
            l1_amount: req.l1_amount,
            timestamp: now_secs,
            slippage: q.slippage_bps,
        })
        &&& after.recent_trades@ == self.recent_trades@.push(trade)
        &&& after.liquidity_pools@ == self.liquidity_pools@.update(i, LiquidityPool {
            token_reserve: (p.token_reserve - q.amount_out) as u64,
            l1_reserve: (p.l1_reserve + req.l1_amount) as u64,
            ..p
        })
        &&& after.tokens@ == self.tokens@.update(i, after_trade(
            tok,
            tok.circulating_supply + q.amount_out,
            p.l1_reserve + req.l1_amount,
            p.token_reserve - q.amount_out,
            !self.token_holdings.holds(req.buyer@, req.token_symbol@),
            self.graduation_threshold as int,
            self.min_liquidity as int,
        ))
        &&& after.tokens@[i].price_in_l1 == price_of(
            after.liquidity_pools@[i].l1_reserve as int,
            after.liquidity_pools@[i].token_reserve as int,
        )
        &&& forall|o: Seq<char>, s: Seq<char>| #[trigger] after.token_holdings.held(o, s)
            == self.token_holdings.held(o, s) + (if o == req.buyer@ && s == req.token_symbol@ { q.amount_out as int } else { 0 })
        &&& credited(self.token_holdings.entries@, after.token_holdings.entries@, req.buyer, req.token_symbol, q.amount_out, q.unit_price, now_secs)
        &&& after.tokens@[i].status == next_status(
            tok.status,
            after.tokens@[i].market_cap as int,
            after.tokens@[i].liquidity_pool as int,
            self.graduation_threshold as int,
            self.min_liquidity as int,
        )
        &&& after.launch_fee == self.launch_fee
        &&& after.min_liquidity == self.min_liquidity
        &&& after.graduation_threshold == self.graduation_threshold
    }

    /// What a successful sell of `req`, recorded as `trade` at `now_secs`,
    /// did to the engine: the pool took the tokens and paid out the quoted
    /// base units, the token followed, the seller was debited (the holding is
    /// removed when nothing remains) and the trade was logged.
    pub open spec fn sold(&self, after: Self, req: SellTokenRequest, trade: TokenTrade, now_secs: u64) -> bool {
        let i = self.index_of(req.token_symbol@);
        let p = self.liquidity_pools@[i];
        let tok = self.tokens@[i];
        let q = sell_quote(p.token_reserve as int, p.l1_reserve as int, p.fee_bps as int, req.token_amount as int)->Ok_0;
        &&& trade == (TokenTrade {
            id: trade.id,
            token_symbol: req.token_symbol,
            trader: req.seller,
            trade_type: TradeType::Sell,
            amount: req.token_amount,
            price: q.unit_price,
            l1_amount: q.amount_out,
            timestamp: now_secs,
            slippage: q.slippage_bps,
        })
        &&& after.recent_trades@ == self.recent_trades@.push(trade)
        &&& after.liquidity_pools@ == self.liquidity_pools@.update(i, LiquidityPool {
            token_reserve: (p.token_reserve + req.token_amount) as u64,
            l1_reserve: (p.l1_reserve - q.amount_out) as u64,
            ..p
        })
        &&& after.tokens@ == self.tokens@.update(i, after_trade(
            tok,
            tok.circulating_supply - req.token_amount,
            p.l1_reserve - q.amount_out,
            p.token_reserve + req.token_amount,
            false,
            self.graduation_threshold as int,
            self.min_liquidity as int,
        ))
        &&& after.tokens@[i].price_in_l1 == price_of(
            after.liquidity_pools@[i].l1_reserve as int,
            after.liquidity_pools@[i].token_reserve as int,
        )
        &&& forall|o: Seq<char>, s: Seq<char>| #[trigger] after.token_holdings.held(o, s)
            == self.token_holdings.held(o, s) - (if o == req.seller@ && s == req.token_symbol@ { req.token_amount as int } else { 0 })
        &&& (after.token_holdings.holds(req.seller@, req.token_symbol@)
            <==> self.token_holdings.held(req.seller@, req.token_symbol@) > req.token_amount)
        &&& debited(self.token_holdings.entries@, after.token_holdings.entries@, req.seller@, req.token_symbol@, req.token_amount)
        &&& after.tokens@[i].status == next_status(
            tok.status,
            after.tokens@[i].market_cap as int,
            after.tokens@[i].liquidity_pool as int,
            self.graduation_threshold as int,
            self.min_liquidity as int,
        )
        &&& after.launch_fee == self.launch_fee
        &&& after.min_liquidity == self.min_liquidity
        &&& after.graduation_threshold == self.graduation_threshold
    }
}

/// `circulating * price / PRICE_SCALE`, rounded toward zero.
fn market_cap(circulating: i64, price: u128) -> (r: i128)
    requires
        -(MAX_SUPPLY as int) <= circulating <= MAX_SUPPLY,
        price <= MAX_PRICE,
    ensures
        r == market_cap_of(circulating as int, price as int),
{
    if circulating >= 0 {
        let c = circulating as u128;
        assert(c * price <= MAX_SUPPLY as int * MAX_PRICE as int) by (nonlinear_arith)
            requires 0 <= c <= MAX_SUPPLY, 0 <= price <= MAX_PRICE;
        ((c * price) / PRICE_SCALE as u128) as i128
    } else {
        let c = (-(circulating as i128)) as u128;
        assert(c * price <= MAX_SUPPLY as int * MAX_PRICE as int) by (nonlinear_arith)
            requires 0 <= c <= MAX_SUPPLY, 0 <= price <= MAX_PRICE;
        -(((c * price) / PRICE_SCALE as u128) as i128)
    }
}

/// The identifier of a trade of `symbol` made at `millis`: `trade_`, the
/// symbol, `_` and the time in decimal.
pub fn trade_id(symbol: &String, millis: u64) -> (r: String)
    ensures
        r@ == trade_id_of(symbol@, millis as nat),
{
    let head = String::from_str("trade_").concat(symbol.as_str()).concat("_");
    let r = append_decimal(head, millis);
    assert(r@ =~= trade_id_of(symbol@, millis as nat));
    r
}

/// A contract address from a hex digest: `token_` and the digest's first
/// fourteen digits.
pub fn contract_address_from_digest(hex: &str) -> (r: String)
    requires
        hex@.len() >= 14,
    ensures
        r@ == "token_"@ + hex@.subrange(0, 14),
{
    String::from_str("token_").concat(hex.substring_char(0, 14))
}

/// The contract address of a token launched by `creator` at `millis`.
pub fn generate_contract_address(symbol: &String, creator: &String, millis: u64) -> (r: String)
    ensures
        r@ == contract_address_of(symbol@, creator@, millis as nat),
{
    let input = append_decimal(symbol.clone().concat(creator.as_str()), millis);
    assert(input@ =~= symbol@ + creator@ + decimal(millis as nat));
    let hex = sha256_hex_of(input.as_str());
    contract_address_from_digest(hex.as_str())
}

impl TokenLaunchSystem {
    /// Whether a token with this symbol exists.
    pub open spec fn has_token(&self, symbol: Seq<char>) -> bool {
        exists|i: int| 0 <= i < self.tokens@.len() && (#[trigger] self.tokens@[i]).symbol@ == symbol
    }

    /// The position of the token with this symbol.
    pub open spec fn index_of(&self, symbol: Seq<char>) -> int {
        choose|i: int| 0 <= i < self.tokens@.len() && (#[trigger] self.tokens@[i]).symbol@ == symbol
    }

    /// Token `i` agrees with its pool and with the ledger: the pool's tokens
    /// and all holdings make up the total supply, and the circulating supply
    /// is what the holders hold beyond the creator's launch allocation.
    pub open spec fn token_ok(&self, i: int) -> bool {
        let t = self.tokens@[i];
        let p = self.liquidity_pools@[i];
        &&& p.token_symbol@ == t.symbol@
        &&& p.wf()
        &&& MIN_SUPPLY <= t.total_supply <= MAX_SUPPLY
        &&& t.price_in_l1 <= MAX_PRICE
        &&& p.token_reserve + self.token_holdings.total(t.symbol@) == t.total_supply
        &&& t.circulating_supply == self.token_holdings.total(t.symbol@) - creator_allocation(t.total_supply as int)
    }

    pub open spec fn wf(&self) -> bool {
        &&& self.tokens@.len() == self.liquidity_pools@.len()
        &&& self.token_holdings.wf()
        &&& forall|i: int| 0 <= i < self.tokens@.len() ==> #[trigger] self.token_ok(i)
        &&& forall|i: int, j: int|
            0 <= i < self.tokens@.len() && 0 <= j < self.tokens@.len() && i != j
                ==> self.tokens@[i].symbol@ != self.tokens@[j].symbol@
        &&& forall|s: Seq<char>| #[trigger] self.token_holdings.total(s) != 0 ==> self.has_token(s)
    }

    /// The refusal, if any, of launching `req` for a creator with `balance`.
    pub open spec fn launch_refusal(&self, req: LaunchTokenRequest, balance: u64) -> Option<EngineError> {
        if balance < self.launch_fee {
            Some(EngineError::InsufficientBalance { required: self.launch_fee, available: balance })
        } else if self.has_token(req.symbol@) {
            Some(EngineError::DuplicateSymbol)
        } else if req.symbol@.len() < 2 || req.symbol@.len() > 10 || req.name@.len() < 3 || req.name@.len() > 50 {
            Some(EngineError::InvalidMetadata)
        } else if req.total_supply < MIN_SUPPLY || req.total_supply > MAX_SUPPLY {
            Some(EngineError::InvalidSupply)
        } else if req.initial_liquidity == 0 {
            Some(EngineError::ReserveExhausted)
        } else {
            None
        }
    }

    /// The refusal, if any, of the buy `req` for a buyer with `balance`.
    pub open spec fn buy_refusal(&self, req: BuyTokenRequest, balance: u64) -> Option<EngineError> {
        if !self.has_token(req.token_symbol@) {
            Some(EngineError::TokenNotFound)
        } else if balance < req.l1_amount {
            Some(EngineError::InsufficientBalance { required: req.l1_amount, available: balance })
        } else {
            let p = self.liquidity_pools@[self.index_of(req.token_symbol@)];
            match bounded(buy_quote(p.token_reserve as int, p.l1_reserve as int, p.fee_bps as int, req.l1_amount as int), req.max_slippage as int) {
                Ok(_) => None,
                Err(e) => Some(e),
            }
        }
    }

    /// The refusal, if any, of the sell `req`.
    pub open spec fn sell_refusal(&self, req: SellTokenRequest) -> Option<EngineError> {
        let held = self.token_holdings.held(req.seller@, req.token_symbol@);
        if !self.token_holdings.holds(req.seller@, req.token_symbol@) || held < req.token_amount {
            Some(EngineError::InsufficientHoldings { held: held as u64, requested: req.token_amount })
        } else if !self.has_token(req.token_symbol@) {
            Some(EngineError::TokenNotFound)
        } else {
            let p = self.liquidity_pools@[self.index_of(req.token_symbol@)];
            match bounded(sell_quote(p.token_reserve as int, p.l1_reserve as int, p.fee_bps as int, req.token_amount as int), req.max_slippage as int) {
                Ok(_) => None,
                Err(e) => Some(e),
            }
        }
    }

    /// An engine with no tokens: launching costs 10 whole units of the base
    /// currency, a token starts trading at 100 of liquidity and graduates at
    /// a market cap of 50 000 (all counted in sub-units).
    pub fn new() -> (r: Self)
        ensures
            r.wf(),
            r.tokens@.len() == 0,
            r.recent_trades@.len() == 0,
            r.token_holdings.entries@.len() == 0,
            r.launch_fee == 10 * UNIT,
            r.min_liquidity == 100 * UNIT,
            r.graduation_threshold == 50_000 * UNIT,
    {
        let r = TokenLaunchSystem {
            tokens: Vec::new(),
            token_holdings: HoldingsLedger::new(),
            liquidity_pools: Vec::new(),
            recent_trades: Vec::new(),
            launch_fee: 10 * UNIT,
            min_liquidity: 100 * UNIT,
            graduation_threshold: 50_000 * UNIT,
        };
        proof {
            assert forall|s: Seq<char>| #[trigger] r.token_holdings.total(s) != 0 implies r.has_token(s) by {
                crate::holdings::lemma_total_absent(r.token_holdings.entries@, s);
            }
        }
        r
    }

    /// The position of the token with this symbol, if there is one.
    fn find_token(&self, symbol: &String) -> (r: Option<usize>)
        requires
            self.wf(),
        ensures
            r is None <==> !self.has_token(symbol@),
            r is Some ==> r->Some_0 == self.index_of(symbol@) && r->Some_0 < self.tokens@.len()
                && self.tokens@[r->Some_0 as int].symbol@ == symbol@,
    {
        let mut i: usize = 0;
        while i < self.tokens.len()
            invariant
                self.wf(),
                i <= self.tokens@.len(),
                forall|k: int| 0 <= k < i ==> self.tokens@[k].symbol@ != symbol@,
            decreases self.tokens@.len() - i,
        {
            if self.tokens[i].symbol == *symbol {
                proof {
                    let j = self.index_of(symbol@);
                    assert(self.tokens@[j].symbol@ == symbol@);
                    if j != i as int {
                        assert(self.tokens@[i as int].symbol@ != self.tokens@[j].symbol@);
                    }
                }
                return Some(i);
            }
            i += 1;
        }
        None
    }

    /// Launches `req.symbol`, reading the clock for the launch time.
    pub fn launch_token(&mut self, req: LaunchTokenRequest, creator_balance: u64) -> (r: Result<Token, EngineError>)
        requires
            old(self).wf(),
        ensures
            final(self).wf(),
            r is Err <==> old(self).launch_refusal(req, creator_balance) is Some,
            r is Err ==> r->Err_0 == old(self).launch_refusal(req, creator_balance)->Some_0 && *final(self) == *old(self),
            r is Ok ==> exists|secs: u64| #[trigger] old(self).launched(*final(self), req, r->Ok_0, secs),
    {
        let now_millis = unix_millis();
        let now_secs = now_millis / 1000;
        self.launch_token_at(req, creator_balance, now_secs, now_millis)
    }

    /// Launches `req.symbol` at the given time. The pool receives four
    /// fifths of the supply and the seed liquidity; the creator is credited
    /// with the rest at the opening price and counted as the first holder.
    /// The token starts `Launching`, with nothing circulating.
    pub fn launch_token_at(&mut self, req: LaunchTokenRequest, creator_balance: u64, now_secs: u64, now_millis: u64) -> (r: Result<Token, EngineError>)
        requires
            old(self).wf(),
        ensures
            final(self).wf(),
            r is Err <==> old(self).launch_refusal(req, creator_balance) is Some,
            r is Err ==> r->Err_0 == old(self).launch_refusal(req, creator_balance)->Some_0 && *final(self) == *old(self),
            r is Ok ==> old(self).launched(*final(self), req, r->Ok_0, now_secs),
            r is Ok ==> r->Ok_0.contract_address@ == contract_address_of(req.symbol@, req.creator@, now_millis as nat),
            final(self).recent_trades == old(self).recent_trades,
            final(self).launch_fee == old(self).launch_fee,
            final(self).min_liquidity == old(self).min_liquidity,
            final(self).graduation_threshold == old(self).graduation_threshold,
    {
        if creator_balance < self.launch_fee {
            return Err(EngineError::InsufficientBalance { required: self.launch_fee, available: creator_balance });
        }
        if self.find_token(&req.symbol).is_some() {
            return Err(EngineError::DuplicateSymbol);
        }
        let symbol_len = req.symbol.as_str().unicode_len();
        let name_len = req.name.as_str().unicode_len();
        if symbol_len < 2 || symbol_len > 10 || name_len < 3 || name_len > 50 {
            return Err(EngineError::InvalidMetadata);
        }
        if req.total_supply < MIN_SUPPLY || req.total_supply > MAX_SUPPLY {
            return Err(EngineError::InvalidSupply);
        }
        if req.initial_liquidity == 0 {
            return Err(EngineError::ReserveExhausted);
        }
        let contract_address = generate_contract_address(&req.symbol, &req.creator, now_millis);
        let pool_tokens = req.total_supply / 5 * 4 + (req.total_supply % 5) * 4 / 5;
        assert(pool_tokens == launch_reserve(req.total_supply as int));
        let creator_tokens = req.total_supply - pool_tokens;
        let ghost prev = *self;
        proof {
            assert(self.token_holdings.total(req.symbol@) == 0);
            self.token_holdings.lemma_held(req.creator@, req.symbol@);
        }
        self.token_holdings.credit(&req.creator, &req.symbol, creator_tokens, req.initial_price as u128, now_secs);
        let pool = LiquidityPool::new(req.symbol.clone(), pool_tokens, req.initial_liquidity, DEFAULT_FEE_BPS);
        let token = Token {
            symbol: req.symbol,
            name: req.name,
            description: req.description,
            creator: req.creator,
            total_supply: req.total_supply,
            circulating_supply: 0,
            created_at: now_secs,
            image_url: req.image_url,
            website: req.website,
            twitter: req.twitter,
            telegram: req.telegram,
            contract_address,
            is_verified: false,
            market_cap: 0,
            price_in_l1: req.initial_price as u128,
            liquidity_pool: 0,
            holders_count: 1,
            trade_count: 0,
            status: TokenStatus::Launching,
        };
        let out = token.snapshot();
        self.tokens.push(token);
        self.liquidity_pools.push(pool);
        proof {
            let n = prev.tokens@.len() as int;
            assert forall|i: int| 0 <= i < self.tokens@.len() implies #[trigger] self.token_ok(i) by {
                if i < n {
                    assert(prev.token_ok(i));
                    assert(self.tokens@[i] == prev.tokens@[i]);
                    assert(self.tokens@[i].symbol@ != req.symbol@);
                }
            }
            assert forall|s: Seq<char>| #[trigger] self.token_holdings.total(s) != 0 implies self.has_token(s) by {
                if s == req.symbol@ {
                    assert(self.tokens@[n].symbol@ == s);
                } else {
                    assert(prev.token_holdings.total(s) != 0);
                    assert(prev.has_token(s));
                    let j = choose|j: int| 0 <= j < prev.tokens@.len() && (#[trigger] prev.tokens@[j]).symbol@ == s;
                    assert(self.tokens@[j] == prev.tokens@[j]);
                }
            }
        }
        Ok(out)
    }
}

impl TokenLaunchSystem {
    /// The status a token moves to after a trade that left it with
    /// `market_cap` and a pool base reserve of `liquidity`.
    pub fn status_after_trade(&self, status: TokenStatus, market_cap: i128, liquidity: u64) -> (r: TokenStatus)
        ensures
            r == next_status(status, market_cap as int, liquidity as int, self.graduation_threshold as int, self.min_liquidity as int),
    {
        match status {
            TokenStatus::Launching => {
                if market_cap >= self.graduation_threshold as i128 {
                    TokenStatus::Graduated
                } else if liquidity >= self.min_liquidity {
                    TokenStatus::Trading
                } else {
                    TokenStatus::Launching
                }
            },
            other => other,
        }
    }

    /// Buys with `req.l1_amount` base units, reading the clock for the
    /// trade's time.
    pub fn buy_token(&mut self, req: BuyTokenRequest, buyer_balance: u64) -> (r: Result<TokenTrade, EngineError>)
        requires
            old(self).wf(),
        ensures
            final(self).wf(),
            r is Err <==> old(self).buy_refusal(req, buyer_balance) is Some,
            r is Err ==> r->Err_0 == old(self).buy_refusal(req, buyer_balance)->Some_0 && *final(self) == *old(self),
            r is Ok ==> final(self).recent_trades@ == old(self).recent_trades@.push(r->Ok_0),
            r is Ok ==> exists|secs: u64| #[trigger] old(self).bought(*final(self), req, r->Ok_0, secs),
    {
        let now_millis = unix_millis();
        let now_secs = now_millis / 1000;
        self.buy_token_at(req, buyer_balance, now_secs, now_millis)
    }

    /// Buys tokens with `req.l1_amount` base units at the given time. The
    /// pool takes the base units and pays out tokens by the constant-product
    /// formula; the buyer is credited at the trade's effective price; the
    /// token's supply, price, market cap, liquidity, counters and status are
    /// brought up to date and the trade is logged. A refused buy changes
    /// nothing.
    pub fn buy_token_at(&mut self, req: BuyTokenRequest, buyer_balance: u64, now_secs: u64, now_millis: u64) -> (r: Result<TokenTrade, EngineError>)
        requires
            old(self).wf(),
        ensures
            final(self).wf(),
            r is Err <==> old(self).buy_refusal(req, buyer_balance) is Some,
            r is Err ==> r->Err_0 == old(self).buy_refusal(req, buyer_balance)->Some_0 && *final(self) == *old(self),
            r is Ok ==> old(self).bought(*final(self), req, r->Ok_0, now_secs),
            r is Ok ==> r->Ok_0.id@ == trade_id_of(req.token_symbol@, now_millis as nat),
            final(self).launch_fee == old(self).launch_fee,
            final(self).min_liquidity == old(self).min_liquidity,
            final(self).graduation_threshold == old(self).graduation_threshold,
    {
        let i = match self.find_token(&req.token_symbol) {
            Some(i) => i,
            None => return Err(EngineError::TokenNotFound),
        };
        if buyer_balance < req.l1_amount {
            return Err(EngineError::InsufficientBalance { required: req.l1_amount, available: buyer_balance });
        }
        let ghost prev = *self;
        proof {
            assert(prev.token_ok(i as int));
        }
        let quote = match self.liquidity_pools[i].quote_buy(req.l1_amount) {
            Ok(q) => q,
            Err(e) => return Err(e),
        };
        if quote.exceeds(req.max_slippage) {
            return Err(EngineError::SlippageExceeded(quote.slippage_bps));
        }
        let q = match self.liquidity_pools[i].buy(req.l1_amount, req.max_slippage) {
            Ok(q) => q,
            Err(e) => return Err(e),
        };
        let ghost t0 = prev.tokens@[i as int];
        let ghost p0 = prev.liquidity_pools@[i as int];
        proof {
            prev.token_holdings.lemma_held(req.buyer@, req.token_symbol@);
            assert(req.l1_amount as int * PRICE_SCALE as int / q.amount_out as int <= req.l1_amount as int * PRICE_SCALE as int) by (nonlinear_arith)
                requires q.amount_out >= 1, req.l1_amount >= 0;
            assert(req.l1_amount as int * PRICE_SCALE as int <= MAX_PRICE as int) by (nonlinear_arith)
                requires 0 <= req.l1_amount <= u64::MAX;
        }
        let first = self.token_holdings.credit(&req.buyer, &req.token_symbol, q.amount_out, q.unit_price, now_secs);
        let price = self.liquidity_pools[i].spot_price();
        let liquidity = self.liquidity_pools[i].l1_reserve;
        proof {
            let p1 = self.liquidity_pools@[i as int];
            assert(p1.l1_reserve as int * PRICE_SCALE as int / p1.token_reserve as int <= p1.l1_reserve as int * PRICE_SCALE as int) by (nonlinear_arith)
                requires p1.token_reserve >= 1, p1.l1_reserve >= 0;
            assert(p1.l1_reserve as int * PRICE_SCALE as int <= MAX_PRICE as int) by (nonlinear_arith)
                requires 0 <= p1.l1_reserve <= u64::MAX;
        }
        let circulating = self.tokens[i].circulating_supply + q.amount_out as i64;
        let cap = market_cap(circulating, price);
        let old_token = self.tokens[i].snapshot();
        let status = self.status_after_trade(old_token.status, cap, liquidity);
        let holders = if first { old_token.holders_count.saturating_add(1) } else { old_token.holders_count };
        let trades = old_token.trade_count.saturating_add(1);
        let token = Token {
            circulating_supply: circulating,
            price_in_l1: price,
            market_cap: cap,
            liquidity_pool: liquidity,
            trade_count: trades,
            holders_count: holders,
            status,
            ..old_token
        };
        self.tokens.set(i, token);
        let trade = TokenTrade {
            id: trade_id(&req.token_symbol, now_millis),
            token_symbol: req.token_symbol,
            trader: req.buyer,
            trade_type: TradeType::Buy,
            amount: q.amount_out,
            price: q.unit_price,
            l1_amount: req.l1_amount,
            timestamp: now_secs,
            slippage: q.slippage_bps,
        };
        let out = trade.snapshot();
        self.recent_trades.push(trade);
        proof {
            let sym = t0.symbol@;
            assert(self.liquidity_pools@[i as int] == (LiquidityPool {
                token_reserve: (p0.token_reserve - q.amount_out) as u64,
                l1_reserve: (p0.l1_reserve + req.l1_amount) as u64,
                ..p0
            }));
            assert(self.liquidity_pools@ =~= prev.liquidity_pools@.update(i as int, self.liquidity_pools@[i as int]));
            assert(self.tokens@[i as int] == after_trade(t0, t0.circulating_supply + q.amount_out, p0.l1_reserve + req.l1_amount,
                p0.token_reserve - q.amount_out, first, prev.graduation_threshold as int, prev.min_liquidity as int));
            assert forall|j: int| 0 <= j < self.tokens@.len() implies #[trigger] self.token_ok(j) by {
                assert(prev.token_ok(j));
                if j != i as int {
                    assert(prev.tokens@[j].symbol@ != sym);
                }
            }
            assert forall|s: Seq<char>| #[trigger] self.token_holdings.total(s) != 0 implies self.has_token(s) by {
                if s == sym {
                    assert(self.tokens@[i as int].symbol@ == s);
                } else {
                    assert(prev.token_holdings.total(s) != 0);
                    let j = choose|j: int| 0 <= j < prev.tokens@.len() && (#[trigger] prev.tokens@[j]).symbol@ == s;
                    assert(self.tokens@[j].symbol@ == s);
                }
            }
            assert forall|a: int, b: int|
                0 <= a < self.tokens@.len() && 0 <= b < self.tokens@.len() && a != b
                implies self.tokens@[a].symbol@ != self.tokens@[b].symbol@ by {
                assert(prev.tokens@[a].symbol@ != prev.tokens@[b].symbol@);
            }
        }
        Ok(out)
    }
}

impl TokenLaunchSystem {
    /// Sells `req.token_amount` tokens, reading the clock for the trade's time.
    pub fn sell_token(&mut self, req: SellTokenRequest) -> (r: Result<TokenTrade, EngineError>)
        requires
            old(self).wf(),
        ensures
            final(self).wf(),
            r is Err <==> old(self).sell_refusal(req) is Some,
            r is Err ==> r->Err_0 == old(self).sell_refusal(req)->Some_0 && *final(self) == *old(self),
            r is Ok ==> final(self).recent_trades@ == old(self).recent_trades@.push(r->Ok_0),
            r is Ok ==> exists|secs: u64| #[trigger] old(self).sold(*final(self), req, r->Ok_0, secs),
    {
        let now_millis = unix_millis();
        let now_secs = now_millis / 1000;
        self.sell_token_at(req, now_secs, now_millis)
    }

    /// Sells `req.token_amount` tokens back to the pool at the given time.
    /// The pool takes the tokens and pays out base units by the
    /// constant-product formula, less the fee; the seller's holding shrinks
    /// and disappears when nothing remains; the token is brought up to date
    /// and the trade is logged. A refused sell changes nothing.
    pub fn sell_token_at(&mut self, req: SellTokenRequest, now_secs: u64, now_millis: u64) -> (r: Result<TokenTrade, EngineError>)
        requires
            old(self).wf(),
        ensures
            final(self).wf(),
            r is Err <==> old(self).sell_refusal(req) is Some,
            r is Err ==> r->Err_0 == old(self).sell_refusal(req)->Some_0 && *final(self) == *old(self),
            r is Ok ==> old(self).sold(*final(self), req, r->Ok_0, now_secs),
            r is Ok ==> r->Ok_0.id@ == trade_id_of(req.token_symbol@, now_millis as nat),
            final(self).launch_fee == old(self).launch_fee,
            final(self).min_liquidity == old(self).min_liquidity,
            final(self).graduation_threshold == old(self).graduation_threshold,
    {
        let ghost prev = *self;
        proof {
            prev.token_holdings.lemma_held(req.seller@, req.token_symbol@);
        }
        let held = match self.token_holdings.find(&req.seller, &req.token_symbol) {
            Some(h) => self.token_holdings.entries[h].holding.amount,
            None => return Err(EngineError::InsufficientHoldings { held: 0, requested: req.token_amount }),
        };
        if held < req.token_amount {
            return Err(EngineError::InsufficientHoldings { held, requested: req.token_amount });
        }
        let i = match self.find_token(&req.token_symbol) {
            Some(i) => i,
            None => return Err(EngineError::TokenNotFound),
        };
        proof {
            assert(prev.token_ok(i as int));
        }
        let quote = match self.liquidity_pools[i].quote_sell(req.token_amount) {
            Ok(q) => q,
            Err(e) => return Err(e),
        };
        if quote.exceeds(req.max_slippage) {
            return Err(EngineError::SlippageExceeded(quote.slippage_bps));
        }
        let q = match self.liquidity_pools[i].sell(req.token_amount, req.max_slippage) {
            Ok(q) => q,
            Err(e) => return Err(e),
        };
        let ghost t0 = prev.tokens@[i as int];
        let ghost p0 = prev.liquidity_pools@[i as int];
        let debited = self.token_holdings.debit(&req.seller, &req.token_symbol, req.token_amount);
        proof {
            assert(debited is Ok);
            self.token_holdings.lemma_held(req.seller@, req.token_symbol@);
        }
        let price = self.liquidity_pools[i].spot_price();
        let liquidity = self.liquidity_pools[i].l1_reserve;
        proof {
            let p1 = self.liquidity_pools@[i as int];
            assert(p1.l1_reserve as int * PRICE_SCALE as int / p1.token_reserve as int <= p1.l1_reserve as int * PRICE_SCALE as int) by (nonlinear_arith)
                requires p1.token_reserve >= 1, p1.l1_reserve >= 0;
            assert(p1.l1_reserve as int * PRICE_SCALE as int <= MAX_PRICE as int) by (nonlinear_arith)
                requires 0 <= p1.l1_reserve <= u64::MAX;
        }
        let circulating = self.tokens[i].circulating_supply - req.token_amount as i64;
        let cap = market_cap(circulating, price);
        let old_token = self.tokens[i].snapshot();
        let status = self.status_after_trade(old_token.status, cap, liquidity);
        let trades = old_token.trade_count.saturating_add(1);
        let token = Token {
            circulating_supply: circulating,
            price_in_l1: price,
            market_cap: cap,
            liquidity_pool: liquidity,
            trade_count: trades,
            status,
            ..old_token
        };
        self.tokens.set(i, token);
        let trade = TokenTrade {
            id: trade_id(&req.token_symbol, now_millis),
            token_symbol: req.token_symbol,
            trader: req.seller,
            trade_type: TradeType::Sell,
            amount: req.token_amount,
            price: q.unit_price,
            l1_amount: q.amount_out,
            timestamp: now_secs,
            slippage: q.slippage_bps,
        };
        let out = trade.snapshot();
        self.recent_trades.push(trade);
        proof {
            let sym = t0.symbol@;
            assert(self.liquidity_pools@[i as int] == (LiquidityPool {
                token_reserve: (p0.token_reserve + req.token_amount) as u64,
                l1_reserve: (p0.l1_reserve - q.amount_out) as u64,
                ..p0
            }));
            assert(self.liquidity_pools@ =~= prev.liquidity_pools@.update(i as int, self.liquidity_pools@[i as int]));
            assert(self.tokens@[i as int] == after_trade(t0, t0.circulating_supply - req.token_amount, p0.l1_reserve - q.amount_out,
                p0.token_reserve + req.token_amount, false, prev.graduation_threshold as int, prev.min_liquidity as int));
            assert forall|j: int| 0 <= j < self.tokens@.len() implies #[trigger] self.token_ok(j) by {
                assert(prev.token_ok(j));
                if j != i as int {
                    assert(prev.tokens@[j].symbol@ != sym);
                }
            }
            assert forall|s: Seq<char>| #[trigger] self.token_holdings.total(s) != 0 implies self.has_token(s) by {
                if s == sym {
                    assert(self.tokens@[i as int].symbol@ == s);
                } else {
                    assert(prev.token_holdings.total(s) != 0);
                    let j = choose|j: int| 0 <= j < prev.tokens@.len() && (#[trigger] prev.tokens@[j]).symbol@ == s;
                    assert(self.tokens@[j].symbol@ == s);
                }
            }
            assert forall|a: int, b: int|
                0 <= a < self.tokens@.len() && 0 <= b < self.tokens@.len() && a != b
                implies self.tokens@[a].symbol@ != self.tokens@[b].symbol@ by {
                assert(prev.tokens@[a].symbol@ != prev.tokens@[b].symbol@);
            }
        }
        Ok(out)
    }
}

impl TokenLaunchSystem {
    /// The current price of `symbol`, if it is a token.
    pub open spec fn price_lookup(&self, symbol: Seq<char>) -> Option<int> {
        if self.has_token(symbol) { Some(self.tokens@[self.index_of(symbol)].price_in_l1 as int) } else { None }
    }

    /// Sums over `hs`, in order, of `amount * price_in_l1` (current value)
    /// and of `amount * average_price` (cost), both still scaled by
    /// `PRICE_SCALE`; holdings of an unknown token are skipped and each sum
    /// is held at `i128::MAX`.
    pub open spec fn portfolio_sums(&self, hs: Seq<TokenHolding>) -> (int, int)
        decreases hs.len(),
    {
        if hs.len() == 0 {
            (0, 0)
        } else {
            let (v, c) = self.portfolio_sums(hs.drop_last());
            let h = hs.last();
            match self.price_lookup(h.token_symbol@) {
                Some(price) => (
                    clamp(v + h.amount * price, 0, i128::MAX as int),
                    clamp(c + h.amount * h.average_price, 0, i128::MAX as int),
                ),
                None => (v, c),
            }
        }
    }

    /// A copy of the token with this symbol, if there is one.
    pub fn get_token_info(&self, symbol: &String) -> (r: Option<Token>)
        requires
            self.wf(),
        ensures
            r is None <==> !self.has_token(symbol@),
            r is Some ==> r->Some_0 == self.tokens@[self.index_of(symbol@)],
    {
        match self.find_token(symbol) {
            Some(i) => Some(self.tokens[i].snapshot()),
            None => None,
        }
    }

    /// Copies of every holding of `user`.
    pub fn get_user_holdings(&self, user: &String) -> (r: Vec<TokenHolding>)
        ensures
            r@ == crate::holdings::holdings_of_owner(self.token_holdings.entries@, user@),
    {
        self.token_holdings.holdings_of(user)
    }

    /// Copies of every token, in launch order.
    pub fn get_all_tokens(&self) -> (r: Vec<Token>)
        ensures
            r@ == self.tokens@,
    {
        let mut out: Vec<Token> = Vec::new();
        let mut i: usize = 0;
        while i < self.tokens.len()
            invariant
                i <= self.tokens@.len(),
                out@ == self.tokens@.subrange(0, i as int),
            decreases self.tokens@.len() - i,
        {
            out.push(self.tokens[i].snapshot());
            i += 1;
            assert(out@ =~= self.tokens@.subrange(0, i as int));
        }
        assert(out@ =~= self.tokens@);
        out
    }

    /// The `limit` most recent trades, newest first.
    pub fn get_recent_trades(&self, limit: usize) -> (r: Vec<TokenTrade>)
        ensures
            r@.len() == if limit < self.recent_trades@.len() { limit as int } else { self.recent_trades@.len() as int },
            forall|k: int| 0 <= k < r@.len() ==> #[trigger] r@[k] == self.recent_trades@[self.recent_trades@.len() - 1 - k],
    {
        let n = self.recent_trades.len();
        let m = if limit < n { limit } else { n };
        let mut out: Vec<TokenTrade> = Vec::new();
        let mut k: usize = 0;
        while k < m
            invariant
                m <= n == self.recent_trades@.len(),
                k <= m,
                out@.len() == k,
                forall|x: int| 0 <= x < k ==> #[trigger] out@[x] == self.recent_trades@[n - 1 - x],
            decreases m - k,
        {
            out.push(self.recent_trades[n - 1 - k].snapshot());
            k += 1;
        }
        out
    }

    /// The `limit` tokens with the most trades, most traded first; tokens with
    /// equal trade counts keep their launch order.
    pub fn get_trending_tokens(&self, limit: usize) -> (r: Vec<Token>)
        ensures
            r@.len() == if limit < self.tokens@.len() { limit as int } else { self.tokens@.len() as int },
            exists|idx: Seq<int>| trending_choice(self.tokens@, idx, r@),
    {
        let n = self.tokens.len();
        let m = if limit < n { limit } else { n };
        let ghost ts = self.tokens@;
        let mut taken: Vec<bool> = Vec::new();
        let mut j: usize = 0;
        while j < n
            invariant
                j <= n == ts.len(),
                taken@.len() == j,
                forall|x: int| 0 <= x < j ==> !taken@[x],
            decreases n - j,
        {
            taken.push(false);
            j += 1;
        }
        let mut out: Vec<Token> = Vec::new();
        let ghost mut idx: Seq<int> = Seq::empty();
        let mut k: usize = 0;
        while k < m
            invariant
                ts == self.tokens@,
                m <= n == ts.len(),
                k <= m,
                taken@.len() == n,
                idx.len() == k,
                forall|x: int| 0 <= x < n ==> (taken@[x] <==> idx.contains(x)),
                trending_choice(ts, idx, out@),
            decreases m - k,
        {
            // some position is still free, since fewer than n are taken
            let mut best: usize = n;
            let mut i: usize = 0;
            while i < n
                invariant
                    ts == self.tokens@,
                    n == ts.len(),
                    taken@.len() == n,
                    i <= n,
                    best == n || (best < i && !taken@[best as int]),
                    best == n ==> forall|x: int| 0 <= x < i ==> taken@[x],
                    best < n ==> forall|x: int| 0 <= x < i && !taken@[x] && x != best ==> ranks_before(ts, best as int, x),
                decreases n - i,
            {
                if !taken[i] {
                    if best == n || self.tokens[i].trade_count > self.tokens[best].trade_count {
                        best = i;
                    }
                }
                i += 1;
            }
            proof {
                if best == n {
                    // every position is taken, so idx holds n distinct positions
                    assert forall|x: int| 0 <= x < n implies idx.contains(x) by {
                        assert(taken@[x]);
                    }
                    lemma_distinct_positions(ts, idx);
                    assert(false);
                }
            }
            taken.set(best, true);
            out.push(self.tokens[best].snapshot());
            proof {
                let old_idx = idx;
                idx = idx.push(best as int);
                assert forall|x: int| 0 <= x < n implies (taken@[x] <==> idx.contains(x)) by {
                    if x == best as int {
                        assert(idx[k as int] == x);
                    } else {
                        if old_idx.contains(x) {
                            let w = choose|w: int| 0 <= w < old_idx.len() && old_idx[w] == x;
                            assert(idx[w] == x);
                        }
                        if idx.contains(x) {
                            let w = choose|w: int| 0 <= w < idx.len() && idx[w] == x;
                            assert(old_idx[w] == x);
                        }
                    }
                }
                assert forall|a: int, b: int| 0 <= a < b < idx.len() implies ranks_before(ts, #[trigger] idx[a], #[trigger] idx[b]) by {
                    if b == k as int {
                        assert(!old_idx.contains(best as int));
                    }
                }
                assert forall|x: int, c: int| 0 <= x < ts.len() && !idx.contains(x) && 0 <= c < idx.len()
                    implies #[trigger] ranks_before(ts, idx[c], x) by {
                    assert(!old_idx.contains(x)) by {
                        if old_idx.contains(x) {
                            let w = choose|w: int| 0 <= w < old_idx.len() && old_idx[w] == x;
                            assert(idx[w] == x);
                        }
                    }
                    assert(x != best as int) by {
                        assert(idx[k as int] == best as int);
                    }
                    assert(!taken@[x]);
                }
            }
            k += 1;
        }
        out
    }

    /// The holdings of `user` valued at current prices: the sum of their
    /// values and of their profit against the average price paid.
    pub fn get_user_portfolio(&self, user: &String) -> (r: UserPortfolioResponse)
        requires
            self.wf(),
        ensures
            r.user == *user,
            r.holdings@ == crate::holdings::holdings_of_owner(self.token_holdings.entries@, user@),
            r.total_value_l1 == self.portfolio_sums(r.holdings@).0 / PRICE_SCALE as int,
            r.total_pnl == div_toward_zero(
                self.portfolio_sums(r.holdings@).0 - self.portfolio_sums(r.holdings@).1,
                PRICE_SCALE as int,
            ),
    {
        let holdings = self.token_holdings.holdings_of(user);
        proof {
            lemma_owner_holdings_bounded(self.token_holdings, user@);
        }
        let cap: u128 = i128::MAX as u128;
        let mut value: u128 = 0;
        let mut cost: u128 = 0;
        let mut i: usize = 0;
        while i < holdings.len()
            invariant
                self.wf(),
                cap == i128::MAX,
                i <= holdings@.len(),
                forall|x: int| 0 <= x < holdings@.len() ==> #[trigger] holdings@[x].amount <= MAX_SUPPLY
                    && holdings@[x].average_price <= MAX_PRICE,
                value <= cap,
                cost <= cap,
                (value as int, cost as int) == self.portfolio_sums(holdings@.subrange(0, i as int)),
            decreases holdings@.len() - i,
        {
            let h = &holdings[i];
            proof {
                assert(holdings@.subrange(0, i as int + 1).drop_last() =~= holdings@.subrange(0, i as int));
            }
            match self.find_token(&h.token_symbol) {
                Some(t) => {
                    let price = self.tokens[t].price_in_l1;
                    proof {
                        assert(self.token_ok(t as int));
                        assert(h.amount as int * price as int <= MAX_SUPPLY as int * MAX_PRICE as int) by (nonlinear_arith)
                            requires 0 <= h.amount <= MAX_SUPPLY, 0 <= price <= MAX_PRICE;
                        assert(h.amount as int * h.average_price as int <= MAX_SUPPLY as int * MAX_PRICE as int) by (nonlinear_arith)
                            requires 0 <= h.amount <= MAX_SUPPLY, 0 <= h.average_price <= MAX_PRICE;
                        assert(0 <= h.amount as int * price as int) by (nonlinear_arith)
                            requires 0 <= h.amount, 0 <= price;
                        assert(0 <= h.amount as int * h.average_price as int) by (nonlinear_arith)
                            requires 0 <= h.amount, 0 <= h.average_price;
                    }
                    let worth = h.amount as u128 * price;
                    let paid = h.amount as u128 * h.average_price;
                    value = if value > cap - worth { cap } else { value + worth };
                    cost = if cost > cap - paid { cap } else { cost + paid };
                },
                None => {},
            }
            i += 1;
        }
        assert(holdings@.subrange(0, i as int) =~= holdings@);
        let diff = value as i128 - cost as i128;
        let pnl = if diff >= 0 { diff / PRICE_SCALE as i128 } else { -((-diff) / PRICE_SCALE as i128) };
        let total = value / PRICE_SCALE as u128;
        UserPortfolioResponse { user: user.clone(), holdings, total_value_l1: total, total_pnl: pnl }
    }
}

/// Positions that are pairwise distinct and all below `ts.len()` number at
/// most `ts.len()`; with every position present there is none left.
proof fn lemma_distinct_positions(ts: Seq<Token>, idx: Seq<int>)
    requires
        idx.len() < ts.len(),
        forall|k: int, l: int| 0 <= k < l < idx.len() ==> ranks_before(ts, #[trigger] idx[k], #[trigger] idx[l]),
        forall|k: int| 0 <= k < idx.len() ==> 0 <= #[trigger] idx[k] < ts.len(),
    ensures
        exists|x: int| 0 <= x < ts.len() && !idx.contains(x),
{
    let s = idx.to_set();
    assert(idx.no_duplicates()) by {
        assert forall|k: int, l: int| 0 <= k < idx.len() && 0 <= l < idx.len() && k != l implies idx[k] != idx[l] by {
            if k < l {
                assert(ranks_before(ts, idx[k], idx[l]));
            } else {
                assert(ranks_before(ts, idx[l], idx[k]));
            }
        }
    }
    idx.unique_seq_to_set();
    let full = Set::new(|x: int| 0 <= x < ts.len());
    if forall|x: int| 0 <= x < ts.len() ==> idx.contains(x) {
        assert(full.subset_of(s));
        vstd::set_lib::lemma_int_range(0, ts.len() as int);
        assert(full =~= vstd::set_lib::set_int_range(0, ts.len() as int));
        vstd::set_lib::lemma_len_subset(full, s);
        assert(false);
    }
}

/// Every holding of a user lies within the ledger's bounds.
proof fn lemma_owner_holdings_bounded(ledger: HoldingsLedger, owner: Seq<char>)
    requires
        ledger.wf(),
    ensures
        forall|x: int| 0 <= x < crate::holdings::holdings_of_owner(ledger.entries@, owner).len()
            ==> #[trigger] crate::holdings::holdings_of_owner(ledger.entries@, owner)[x].amount <= MAX_SUPPLY
                && crate::holdings::holdings_of_owner(ledger.entries@, owner)[x].average_price <= MAX_PRICE,
{
    lemma_owned_bounded(ledger.entries@, owner);
}

proof fn lemma_owned_bounded(s: Seq<LedgerEntry>, owner: Seq<char>)
    requires
        forall|i: int| 0 <= i < s.len() ==> #[trigger] s[i].holding.amount <= MAX_SUPPLY && s[i].holding.average_price <= MAX_PRICE,
    ensures
        forall|x: int| 0 <= x < crate::holdings::holdings_of_owner(s, owner).len()
            ==> #[trigger] crate::holdings::holdings_of_owner(s, owner)[x].amount <= MAX_SUPPLY
                && crate::holdings::holdings_of_owner(s, owner)[x].average_price <= MAX_PRICE,
    decreases s.len(),
{
    if s.len() > 0 {
        let t = s.drop_last();
        assert forall|i: int| 0 <= i < t.len() implies #[trigger] t[i].holding.amount <= MAX_SUPPLY && t[i].holding.average_price <= MAX_PRICE by {
            assert(t[i] == s[i]);
        }
        lemma_owned_bounded(t, owner);
        assert(s.last() == s[s.len() - 1]);
        let prev = crate::holdings::holdings_of_owner(t, owner);
        let h = crate::holdings::holdings_of_owner(s, owner);
        assert forall|x: int| 0 <= x < h.len() implies #[trigger] h[x].amount <= MAX_SUPPLY && h[x].average_price <= MAX_PRICE by {
            if x < prev.len() {
                assert(h[x] == prev[x]);
            }
        }
    }
}

/// Conservation: in every well-formed engine, a token's circulating supply is
/// what all users hold of it, less the allocation its creator was credited
/// with at launch (which never entered circulation).
pub proof fn lemma_circulating_matches_holdings(e: TokenLaunchSystem, symbol: Seq<char>)
    requires
        e.wf(),
        e.has_token(symbol),
    ensures
        e.tokens@[e.index_of(symbol)].circulating_supply
            == e.token_holdings.total(symbol) - creator_allocation(e.tokens@[e.index_of(symbol)].total_supply as int),
{
    assert(e.token_ok(e.index_of(symbol)));
}

/// Conservation across trades: between two well-formed engines in which a
/// token has the same supply (buys and sells never change it), its
/// circulating supply and the sum of its live holdings differ by the same
/// amount; every trade moves both by the same number of tokens.
pub proof fn lemma_trades_keep_supply_gap(before: TokenLaunchSystem, after: TokenLaunchSystem, symbol: Seq<char>)
    requires
        before.wf(),
        after.wf(),
        before.has_token(symbol),
        after.has_token(symbol),
        after.tokens@[after.index_of(symbol)].total_supply == before.tokens@[before.index_of(symbol)].total_supply,
    ensures
        after.token_holdings.total(symbol) - after.tokens@[after.index_of(symbol)].circulating_supply
            == before.token_holdings.total(symbol) - before.tokens@[before.index_of(symbol)].circulating_supply,
{
    lemma_circulating_matches_holdings(before, symbol);
    lemma_circulating_matches_holdings(after, symbol);
}

/// Fee leakage through the engine: buying and at once selling every token
/// received returns less base currency than was paid; the pool ends with its
/// token reserve restored and its base reserve grown by what was kept.
pub proof fn lemma_buy_then_sell_loses_fee(
    s0: TokenLaunchSystem,
    s1: TokenLaunchSystem,
    s2: TokenLaunchSystem,
    buy: BuyTokenRequest,
    balance: u64,
    bought_trade: TokenTrade,
    buy_secs: u64,
    sell: SellTokenRequest,
    sold_trade: TokenTrade,
    sell_secs: u64,
)
    requires
        s0.wf(),
        s1.wf(),
        s2.wf(),
        s0.buy_refusal(buy, balance) is None,
        s0.bought(s1, buy, bought_trade, buy_secs),
        s1.sell_refusal(sell) is None,
        s1.sold(s2, sell, sold_trade, sell_secs),
        sell.token_symbol@ == buy.token_symbol@,
        sell.token_amount == bought_trade.amount,
        s0.liquidity_pools@[s0.index_of(buy.token_symbol@)].fee_bps > 0,
    ensures
        sold_trade.l1_amount < bought_trade.l1_amount,
        s2.liquidity_pools@[s2.index_of(buy.token_symbol@)].token_reserve
            == s0.liquidity_pools@[s0.index_of(buy.token_symbol@)].token_reserve,
        s2.liquidity_pools@[s2.index_of(buy.token_symbol@)].l1_reserve
            > s0.liquidity_pools@[s0.index_of(buy.token_symbol@)].l1_reserve,
{
    let sym = buy.token_symbol@;
    let i = s0.index_of(sym);
    assert(s0.token_ok(i));
    assert(s1.tokens@[i].symbol@ == sym);
    let j = s1.index_of(sym);
    if j != i {
        assert(s1.tokens@[i].symbol@ != s1.tokens@[j].symbol@);
    }
    assert(s2.tokens@[i].symbol@ == sym);
    let k = s2.index_of(sym);
    assert(s2.tokens@.len() == s1.tokens@.len());
    if k != i {
        assert(s2.tokens@[i].symbol@ != s2.tokens@[k].symbol@);
    }
    let p = s0.liquidity_pools@[i];
    lemma_round_trip_loses_fee(p.token_reserve, p.l1_reserve, p.fee_bps, buy.l1_amount);
    let out = bought_trade.amount;
    assert(s1.liquidity_pools@[i].token_reserve == p.token_reserve - out);
    assert(s1.liquidity_pools@[i].l1_reserve == p.l1_reserve + buy.l1_amount);
    assert(bought_trade.l1_amount == buy.l1_amount);
}

/// Graduation is immediate and final: a launching token graduates as soon as
/// a trade brings its market cap to the threshold, and a graduated token stays
/// graduated whatever later trades do.
pub proof fn lemma_graduation_is_final(status: TokenStatus, market_cap: int, liquidity: int, graduation_threshold: int, min_liquidity: int)
    ensures
        status == TokenStatus::Launching && market_cap >= graduation_threshold
            ==> next_status(status, market_cap, liquidity, graduation_threshold, min_liquidity) == TokenStatus::Graduated,
        status == TokenStatus::Graduated
            ==> next_status(status, market_cap, liquidity, graduation_threshold, min_liquidity) == TokenStatus::Graduated,
{
}

} // verus!
