//! A single-node token launchpad: constant-product liquidity pools, holdings
//! with volume-weighted cost basis, a trade log and the launch / buy / sell
//! engine that ties them together, plus a sliding-window rate limiter.
//!
//! Every token amount and every base-currency amount, supplies, reserves,
//! fees, thresholds and market caps included, counts sub-units:
//! [`amm::UNIT`] sub-units make one whole token or one whole unit of the base
//! currency. Prices are fixed-point numbers scaled by [`amm::PRICE_SCALE`];
//! fees and slippage are expressed in hundredths of a percent.
pub mod error;
pub mod amm;
pub mod holdings;
pub mod text;
pub mod digest;
pub mod clock;
pub mod token_launch;
pub mod security;
pub mod social_mining;
pub mod enhanced_transaction;
pub mod protocol;
