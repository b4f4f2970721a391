//! The read-only price queries: the four swap directions re-exposed as
//! side-effect-free lookups with a narrower error set, suitable for an
//! external query transport.

use crate::dex::{Dex, DexView};
use crate::math::sat_u128;
use crate::pricing::{
    get_input_price, get_output_price, input_price_fits, output_price_fits, spec_input_price,
    spec_output_price,
};
use crate::types::Error;
use vstd::prelude::*;

verus! {

/// What a price query can fail with.
#[derive(Debug, PartialEq, Eq)]
pub enum RpcError {
    ExchangeNotFound,
    NotEnoughLiquidity,
    Overflow,
    Unexpected(String),
}

/// The result of a price query.
pub type RpcResult<T> = Result<T, RpcError>;

/// The name of each error, as the text a transport would carry.
pub open spec fn error_name(err: Error) -> Seq<char> {
    match err {
        Error::AssetNotFound => "AssetNotFound"@,
        Error::ExchangeAlreadyExists => "ExchangeAlreadyExists"@,
        Error::TokenIdTaken => "TokenIdTaken"@,
        Error::BalanceTooLow => "BalanceTooLow"@,
        Error::NotEnoughTokens => "NotEnoughTokens"@,
        Error::ProviderLiquidityTooLow => "ProviderLiquidityTooLow"@,
        Error::ExchangeNotFound => "ExchangeNotFound"@,
        Error::TradeAmountIsZero => "TradeAmountIsZero"@,
        Error::TokenAmountIsZero => "TokenAmountIsZero"@,
        Error::MaxTokensIsZero => "MaxTokensIsZero"@,
        Error::CurrencyAmountIsZero => "CurrencyAmountIsZero"@,
        Error::CurrencyAmountTooHigh => "CurrencyAmountTooHigh"@,
        Error::CurrencyAmountTooLow => "CurrencyAmountTooLow"@,
        Error::MinLiquidityIsZero => "MinLiquidityIsZero"@,
        Error::MaxTokensTooLow => "MaxTokensTooLow"@,
        Error::MinLiquidityTooHigh => "MinLiquidityTooHigh"@,
        Error::LiquidityAmountIsZero => "LiquidityAmountIsZero"@,
        Error::MinCurrencyIsZero => "MinCurrencyIsZero"@,
        Error::MinTokensIsZero => "MinTokensIsZero"@,
        Error::MinCurrencyTooHigh => "MinCurrencyTooHigh"@,
        Error::MinTokensTooHigh => "MinTokensTooHigh"@,
        Error::MaxCurrencyTooLow => "MaxCurrencyTooLow"@,
        Error::MinBoughtTokensTooHigh => "MinBoughtTokensTooHigh"@,
        Error::MaxSoldTokensTooLow => "MaxSoldTokensTooLow"@,
        Error::NotEnoughLiquidity => "NotEnoughLiquidity"@,
        Error::Overflow => "Overflow"@,
        Error::Underflow => "Underflow"@,
        Error::DeadlinePassed => "DeadlinePassed"@,
    }
}

impl Error {
    /// The error's name, for transports that carry text.
    pub fn describe(&self) -> (r: String)
        ensures
            r@ == error_name(*self),
    {
        match *self {
            Error::AssetNotFound => "AssetNotFound".to_owned(),
            Error::ExchangeAlreadyExists => "ExchangeAlreadyExists".to_owned(),
            Error::TokenIdTaken => "TokenIdTaken".to_owned(),
            Error::BalanceTooLow => "BalanceTooLow".to_owned(),
            Error::NotEnoughTokens => "NotEnoughTokens".to_owned(),
            Error::ProviderLiquidityTooLow => "ProviderLiquidityTooLow".to_owned(),
            Error::ExchangeNotFound => "ExchangeNotFound".to_owned(),
            Error::TradeAmountIsZero => "TradeAmountIsZero".to_owned(),
            Error::TokenAmountIsZero => "TokenAmountIsZero".to_owned(),
            Error::MaxTokensIsZero => "MaxTokensIsZero".to_owned(),
            Error::CurrencyAmountIsZero => "CurrencyAmountIsZero".to_owned(),
            Error::CurrencyAmountTooHigh => "CurrencyAmountTooHigh".to_owned(),
            Error::CurrencyAmountTooLow => "CurrencyAmountTooLow".to_owned(),
            Error::MinLiquidityIsZero => "MinLiquidityIsZero".to_owned(),
            Error::MaxTokensTooLow => "MaxTokensTooLow".to_owned(),
            Error::MinLiquidityTooHigh => "MinLiquidityTooHigh".to_owned(),
            Error::LiquidityAmountIsZero => "LiquidityAmountIsZero".to_owned(),
            Error::MinCurrencyIsZero => "MinCurrencyIsZero".to_owned(),
            Error::MinTokensIsZero => "MinTokensIsZero".to_owned(),
            Error::MinCurrencyTooHigh => "MinCurrencyTooHigh".to_owned(),
            Error::MinTokensTooHigh => "MinTokensTooHigh".to_owned(),
            Error::MaxCurrencyTooLow => "MaxCurrencyTooLow".to_owned(),
            Error::MinBoughtTokensTooHigh => "MinBoughtTokensTooHigh".to_owned(),
            Error::MaxSoldTokensTooLow => "MaxSoldTokensTooLow".to_owned(),
            Error::NotEnoughLiquidity => "NotEnoughLiquidity".to_owned(),
            Error::Overflow => "Overflow".to_owned(),
            Error::Underflow => "Underflow".to_owned(),
            Error::DeadlinePassed => "DeadlinePassed".to_owned(),
        }
    }
}

impl RpcError {
    /// Maps the three errors a query can produce onto their transport
    /// counterparts; everything else becomes the opaque fallback, carrying
    /// the engine error's name.
    pub fn from_error(err: Error) -> (r: RpcError)
        ensures
            err == Error::ExchangeNotFound ==> r == RpcError::ExchangeNotFound,
            err == Error::NotEnoughLiquidity ==> r == RpcError::NotEnoughLiquidity,
            err == Error::Overflow ==> r == RpcError::Overflow,
            err != Error::ExchangeNotFound && err != Error::NotEnoughLiquidity && err
                != Error::Overflow ==> (r matches RpcError::Unexpected(m) && m@ == error_name(
                err,
            )),
    {
        match err {
            Error::ExchangeNotFound => RpcError::ExchangeNotFound,
            Error::NotEnoughLiquidity => RpcError::NotEnoughLiquidity,
            Error::Overflow => RpcError::Overflow,
            _ => RpcError::Unexpected(err.describe()),
        }
    }
}

impl From<Error> for RpcError {
    /// Hands the conversion to `RpcError::from_error`, which carries the
    /// contract; `From` itself cannot state the `Unexpected` arm through
    /// vstd's hook, so nothing is claimed of it here.
    fn from(err: Error) -> RpcError {
        RpcError::from_error(err)
    }
}

impl vstd::std_specs::convert::FromSpecImpl<Error> for RpcError {
    open spec fn obeys_from_spec() -> bool {
        false
    }

    open spec fn from_spec(err: Error) -> RpcError {
        RpcError::Unexpected(vstd::pervasive::arbitrary())
    }
}

/// What a fixed-input currency-to-asset query answers: the tokens bought by
/// `currency_amount`. A pool drained of both reserves cannot quote a zero
/// input.
pub open spec fn currency_to_asset_output_outcome(
    d: DexView,
    asset_id: u32,
    currency_amount: u128,
) -> Result<u128, RpcError> {
    if !d.exchanges.contains_key(asset_id) {
        Err(RpcError::ExchangeNotFound)
    } else {
        let e = d.exchanges[asset_id];
        if e.currency_reserve == 0 && currency_amount == 0 {
            Err(RpcError::NotEnoughLiquidity)
        } else if !input_price_fits(
            currency_amount as int,
            e.currency_reserve as int,
            e.token_reserve as int,
            d.fee_numerator as int,
            d.fee_denominator as int,
        ) {
            Err(RpcError::Overflow)
        } else {
            Ok(
                spec_input_price(
                    currency_amount as int,
                    e.currency_reserve as int,
                    e.token_reserve as int,
                    d.fee_numerator as int,
                    d.fee_denominator as int,
                ) as u128,
            )
        }
    }
}

/// What a fixed-output currency-to-asset query answers: the currency owed
/// for `token_amount`.
pub open spec fn currency_to_asset_input_outcome(
    d: DexView,
    asset_id: u32,
    token_amount: u128,
) -> Result<u128, RpcError> {
    if !d.exchanges.contains_key(asset_id) {
        Err(RpcError::ExchangeNotFound)
    } else {
        let e = d.exchanges[asset_id];
        if token_amount >= e.token_reserve {
            Err(RpcError::NotEnoughLiquidity)
        } else if !output_price_fits(
            token_amount as int,
            e.currency_reserve as int,
            e.token_reserve as int,
            d.fee_numerator as int,
            d.fee_denominator as int,
        ) {
            Err(RpcError::Overflow)
        } else {
            Ok(
                sat_u128(
                    spec_output_price(
                        token_amount as int,
                        e.currency_reserve as int,
                        e.token_reserve as int,
                        d.fee_numerator as int,
                        d.fee_denominator as int,
                    ),
                ) as u128,
            )
        }
    }
}

/// What a fixed-input asset-to-currency query answers: the currency bought
/// by `token_amount`. A pool drained of both reserves cannot quote a zero
/// input.
pub open spec fn asset_to_currency_output_outcome(
    d: DexView,
    asset_id: u32,
    token_amount: u128,
) -> Result<u128, RpcError> {
    if !d.exchanges.contains_key(asset_id) {
        Err(RpcError::ExchangeNotFound)
    } else {
        let e = d.exchanges[asset_id];
        if e.token_reserve == 0 && token_amount == 0 {
            Err(RpcError::NotEnoughLiquidity)
        } else if !input_price_fits(
            token_amount as int,
            e.token_reserve as int,
            e.currency_reserve as int,
            d.fee_numerator as int,
            d.fee_denominator as int,
        ) {
            Err(RpcError::Overflow)
        } else {
            Ok(
                spec_input_price(
                    token_amount as int,
                    e.token_reserve as int,
                    e.currency_reserve as int,
                    d.fee_numerator as int,
                    d.fee_denominator as int,
                ) as u128,
            )
        }
    }
}

/// What a fixed-output asset-to-currency query answers: the tokens owed for
/// `currency_amount`.
pub open spec fn asset_to_currency_input_outcome(
    d: DexView,
    asset_id: u32,
    currency_amount: u128,
) -> Result<u128, RpcError> {
    if !d.exchanges.contains_key(asset_id) {
        Err(RpcError::ExchangeNotFound)
    } else {
        let e = d.exchanges[asset_id];
        if currency_amount >= e.currency_reserve {
            Err(RpcError::NotEnoughLiquidity)
        } else if !output_price_fits(
            currency_amount as int,
            e.token_reserve as int,
            e.currency_reserve as int,
            d.fee_numerator as int,
            d.fee_denominator as int,
        ) {
            Err(RpcError::Overflow)
        } else {
            Ok(
                sat_u128(
                    spec_output_price(
                        currency_amount as int,
                        e.token_reserve as int,
                        e.currency_reserve as int,
                        d.fee_numerator as int,
                        d.fee_denominator as int,
                    ),
                ) as u128,
            )
        }
    }
}

impl Dex {
    /// The output amount for a fixed-input currency-to-asset trade: how
    /// much asset a payment of `currency_amount` would buy right now.
    pub fn get_currency_to_asset_output_amount(&self, asset_id: u32, currency_amount: u128) -> (r:
        RpcResult<u128>)
        requires
            self.wf(),
        ensures
            r == currency_to_asset_output_outcome(self@, asset_id, currency_amount),
    {
        let exchange = match self.get_exchange(asset_id) {
            Ok(e) => e,
            Err(_) => {
                return Err(RpcError::ExchangeNotFound);
            },
        };
        if exchange.currency_reserve == 0 && currency_amount == 0 {
            return Err(RpcError::NotEnoughLiquidity);
        }
        match get_input_price(
            currency_amount,
            exchange.currency_reserve,
            exchange.token_reserve,
            self.fee_numerator,
            self.fee_denominator,
        ) {
            Ok(v) => Ok(v),
            Err(_) => Err(RpcError::Overflow),
        }
    }

    /// The input amount for a fixed-output currency-to-asset trade: how
    /// much currency buying `token_amount` of the asset would cost.
    pub fn get_currency_to_asset_input_amount(&self, asset_id: u32, token_amount: u128) -> (r:
        RpcResult<u128>)
        requires
            self.wf(),
        ensures
            r == currency_to_asset_input_outcome(self@, asset_id, token_amount),
    {
        let exchange = match self.get_exchange(asset_id) {
            Ok(e) => e,
            Err(_) => {
                return Err(RpcError::ExchangeNotFound);
            },
        };
        match get_output_price(
            token_amount,
            exchange.currency_reserve,
            exchange.token_reserve,
            self.fee_numerator,
            self.fee_denominator,
        ) {
            Ok(v) => Ok(v),
            Err(Error::NotEnoughLiquidity) => Err(RpcError::NotEnoughLiquidity),
            Err(_) => Err(RpcError::Overflow),
        }
    }

    /// The output amount for a fixed-input asset-to-currency trade: how
    /// much currency a payment of `token_amount` of the asset would buy.
    pub fn get_asset_to_currency_output_amount(&self, asset_id: u32, token_amount: u128) -> (r:
        RpcResult<u128>)
        requires
            self.wf(),
        ensures
            r == asset_to_currency_output_outcome(self@, asset_id, token_amount),
    {
        let exchange = match self.get_exchange(asset_id) {
            Ok(e) => e,
            Err(_) => {
                return Err(RpcError::ExchangeNotFound);
            },
        };
        if exchange.token_reserve == 0 && token_amount == 0 {
            return Err(RpcError::NotEnoughLiquidity);
        }
        match get_input_price(
            token_amount,
            exchange.token_reserve,
            exchange.currency_reserve,
            self.fee_numerator,
            self.fee_denominator,
        ) {
            Ok(v) => Ok(v),
            Err(_) => Err(RpcError::Overflow),
        }
    }

    /// The input amount for a fixed-output asset-to-currency trade: how
    /// many asset tokens buying `currency_amount` of currency would cost.
    pub fn get_asset_to_currency_input_amount(&self, asset_id: u32, currency_amount: u128) -> (r:
        RpcResult<u128>)
        requires
            self.wf(),
        ensures
            r == asset_to_currency_input_outcome(self@, asset_id, currency_amount),
    {
        let exchange = match self.get_exchange(asset_id) {
            Ok(e) => e,
            Err(_) => {
                return Err(RpcError::ExchangeNotFound);
            },
        };
        match get_output_price(
            currency_amount,
            exchange.token_reserve,
            exchange.currency_reserve,
            self.fee_numerator,
            self.fee_denominator,
        ) {
            Ok(v) => Ok(v),
            Err(Error::NotEnoughLiquidity) => Err(RpcError::NotEnoughLiquidity),
            Err(_) => Err(RpcError::Overflow),
        }
    }
}

} // verus!
