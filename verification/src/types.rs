//! Data types shared across the engine: the exchange record, trade
//! requests, errors, and emitted events.

use vstd::prelude::*;

verus! {

/// One liquidity pool: a traded asset paired against the reference currency,
/// together with the fungible asset that represents pool shares.
#[derive(Clone, Copy, Debug, PartialEq, Eq, Structural)]
pub struct Exchange {
    /// Identifier of the traded asset.
    pub asset_id: u32,
    /// Amount of reference currency held by the pool.
    pub currency_reserve: u128,
    /// Amount of the traded asset held by the pool.
    pub token_reserve: u128,
    /// Identifier of the asset that represents liquidity shares.
    pub liquidity_token_id: u32,
}

/// A swap request: either the paid amount is fixed and the received amount
/// is bounded from below, or the received amount is fixed and the paid
/// amount is bounded from above.
#[derive(Clone, Copy, Debug, PartialEq, Eq, Structural)]
pub enum TradeAmount {
    FixedInput { input_amount: u128, min_output: u128 },
    FixedOutput { max_input: u128, output_amount: u128 },
}

/// Everything that can make an operation fail.
#[derive(Clone, Copy, Debug, PartialEq, Eq, Structural)]
pub enum Error {
    /// Asset with the specified ID does not exist
    AssetNotFound,
    /// Exchange for the given asset already exists
    ExchangeAlreadyExists,
    /// Provided liquidity token ID is already taken
    TokenIdTaken,
    /// Not enough free balance to add liquidity or perform trade
    BalanceTooLow,
    /// Not enough tokens to add liquidity or perform trade
    NotEnoughTokens,
    /// Specified account doesn't own enough liquidity in the exchange
    ProviderLiquidityTooLow,
    /// No exchange found for the given `asset_id`
    ExchangeNotFound,
    /// Zero value provided for trade amount parameter
    TradeAmountIsZero,
    /// Zero value provided for `token_amount` parameter
    TokenAmountIsZero,
    /// Zero value provided for `max_tokens` parameter
    MaxTokensIsZero,
    /// Zero value provided for `currency_amount` parameter
    CurrencyAmountIsZero,
    /// Value provided for `currency_amount` parameter is too high
    CurrencyAmountTooHigh,
    /// Value provided for `currency_amount` parameter is too low
    CurrencyAmountTooLow,
    /// Zero value provided for `min_liquidity` parameter
    MinLiquidityIsZero,
    /// Value provided for `max_tokens` parameter is too low
    MaxTokensTooLow,
    /// Value provided for `min_liquidity` parameter is too high
    MinLiquidityTooHigh,
    /// Zero value provided for `liquidity_amount` parameter
    LiquidityAmountIsZero,
    /// Zero value provided for `min_currency` parameter
    MinCurrencyIsZero,
    /// Zero value provided for `min_tokens` parameter
    MinTokensIsZero,
    /// Value provided for `min_currency` parameter is too high
    MinCurrencyTooHigh,
    /// Value provided for `min_tokens` parameter is too high
    MinTokensTooHigh,
    /// Value provided for `max_currency` parameter is too low
    MaxCurrencyTooLow,
    /// Value provided for `min_bought_tokens` parameter is too high
    MinBoughtTokensTooHigh,
    /// Value provided for `max_sold_tokens` parameter is too low
    MaxSoldTokensTooLow,
    /// There is not enough liquidity in the exchange to perform trade
    NotEnoughLiquidity,
    /// Overflow occurred
    Overflow,
    /// Underflow occurred
    Underflow,
    /// Deadline specified for the operation has passed
    DeadlinePassed,
}

/// Facts handed to the event sink when an operation succeeds.
#[derive(Debug, PartialEq, Eq, Structural)]
pub enum Event {
    /// A new exchange was created [asset_id, liquidity_token_id]
    ExchangeCreated(u32, u32),
    /// Liquidity was added to an exchange
    /// [provider_id, asset_id, currency_amount, token_amount, liquidity_minted]
    LiquidityAdded(u64, u32, u128, u128, u128),
    /// Liquidity was removed from an exchange
    /// [provider_id, asset_id, currency_amount, token_amount, liquidity_amount]
    LiquidityRemoved(u64, u32, u128, u128, u128),
    /// Currency was traded for an asset
    /// [asset_id, buyer_id, recipient_id, currency_amount, token_amount]
    CurrencyTradedForAsset(u32, u64, u64, u128, u128),
    /// An asset was traded for currency
    /// [asset_id, buyer_id, recipient_id, currency_amount, token_amount]
    AssetTradedForCurrency(u32, u64, u64, u128, u128),
}

} // verus!
