//! A constant-product automated-market-maker engine.
//!
//! The crate keeps a registry of two-asset liquidity pools ("exchanges"),
//! a currency ledger and a fungible-asset ledger, and offers the operations
//! of a Uniswap-V1-style exchange: creating pools, adding and removing
//! liquidity, and swapping along the constant-product curve with a provider
//! fee. Every operation is specified by a contract and verified.

pub mod accounts;
pub mod assets;
pub mod dex;
pub mod exchanges;
pub mod laws;
pub mod liquidity;
pub mod math;
pub mod pricing;
pub mod queries;
pub mod swaps;
pub mod types;

pub use crate::dex::{Dex, DexView};
pub use crate::liquidity::GenesisConfig;
pub use crate::queries::{RpcError, RpcResult};
pub use crate::types::{Error, Event, Exchange, TradeAmount};
