use vstd::prelude::*;

verus! {

/// Why an engine operation was refused. A refused operation changes nothing.
#[derive(Debug, Clone, Copy, PartialEq, Eq, Structural)]
pub enum EngineError {
    /// The caller's external balance does not cover the amount needed.
    InsufficientBalance { required: u64, available: u64 },
    /// A token with this symbol already exists.
    DuplicateSymbol,
    /// The symbol or the name has a length outside the accepted range.
    InvalidMetadata,
    /// The total supply lies outside the accepted range.
    InvalidSupply,
    /// No token has this symbol.
    TokenNotFound,
    /// No liquidity pool exists for this symbol.
    PoolNotFound,
    /// The seller holds fewer tokens than the amount to sell.
    InsufficientHoldings { held: u64, requested: u64 },
    /// The trade's slippage (in hundredths of a percent) exceeds the caller's bound.
    SlippageExceeded(u128),
    /// The trade would leave a reserve empty or outside the representable range.
    ReserveExhausted,
    /// The trade amount, or what it would yield, is zero.
    InvalidAmount,
}

} // verus!
