//! The swap orchestrator: single-leg trades between currency and an asset,
//! and the compound two-leg asset-to-asset trade routed through the
//! custodial account.
//!
//! Every call validates the deadline, the declared amounts, and the
//! caller's funds, prices the trade against the reserves as read at entry,
//! and only then moves funds and commits the new reserves; a call that
//! fails changes nothing.

use crate::accounts::balance_in;
use crate::assets::{asset_balance, asset_total, AssetView};
use crate::dex::{exchange_ok, trade_amount_nonzero, Dex, DexView};
use crate::math::sat_u128;
use crate::pricing::{
    get_input_price, get_output_price, input_price_fits, lemma_input_price_below_reserve,
    output_price_fits, spec_input_price, spec_output_price,
};
use crate::types::{Error, Event, Exchange, TradeAmount};
use vstd::arithmetic::mul::lemma_mul_inequality;
use vstd::prelude::*;

verus! {

/// The state after a currency-to-asset swap takes effect: the buyer's
/// currency moves into the custodial account (unless the pool itself is
/// buying, as in the second leg of a compound trade), the bought tokens
/// move to the recipient, the reserves shift, and the trade is logged.
pub open spec fn swap_c2a_view(
    d: DexView,
    asset_id: u32,
    currency_amount: u128,
    token_amount: u128,
    buyer: u64,
    recipient: u64,
) -> DexView {
    let e = d.exchanges[asset_id];
    let pallet = d.pallet_account;
    let currency1 = if buyer == pallet {
        d.currency
    } else {
        d.currency.insert(
            buyer,
            (balance_in(d.currency, buyer) - currency_amount) as u128,
        ).insert(pallet, (balance_in(d.currency, pallet) + currency_amount) as u128)
    };
    let assets1 = if recipient == pallet {
        d.assets
    } else {
        d.assets.insert(
            e.asset_id,
            AssetView {
                total: asset_total(d.assets, e.asset_id),
                balances: d.assets[e.asset_id].balances.insert(
                    pallet,
                    (asset_balance(d.assets, e.asset_id, pallet) - token_amount) as u128,
                ).insert(
                    recipient,
                    (asset_balance(d.assets, e.asset_id, recipient) + token_amount) as u128,
                ),
            },
        )
    };
    DexView {
        currency: currency1,
        assets: assets1,
        exchanges: d.exchanges.insert(
            e.asset_id,
            Exchange {
                asset_id: e.asset_id,
                currency_reserve: (e.currency_reserve + currency_amount) as u128,
                token_reserve: (e.token_reserve - token_amount) as u128,
                liquidity_token_id: e.liquidity_token_id,
            },
        ),
        events: d.events.push(
            Event::CurrencyTradedForAsset(e.asset_id, buyer, recipient, currency_amount,
            token_amount),
        ),
        ..d
    }
}

/// The state after an asset-to-currency swap takes effect: the buyer's
/// tokens move into the custodial account, the bought currency moves to
/// the recipient (unless the recipient is the pool itself, as in the first
/// leg of a compound trade), the reserves shift, and the trade is logged.
pub open spec fn swap_a2c_view(
    d: DexView,
    asset_id: u32,
    currency_amount: u128,
    token_amount: u128,
    buyer: u64,
    recipient: u64,
) -> DexView {
    let e = d.exchanges[asset_id];
    let pallet = d.pallet_account;
    let assets1 = d.assets.insert(
        e.asset_id,
        AssetView {
            total: asset_total(d.assets, e.asset_id),
            balances: d.assets[e.asset_id].balances.insert(
                buyer,
                (asset_balance(d.assets, e.asset_id, buyer) - token_amount) as u128,
            ).insert(
                pallet,
                (asset_balance(d.assets, e.asset_id, pallet) + token_amount) as u128,
            ),
        },
    );
    let currency1 = if recipient == pallet {
        d.currency
    } else {
        d.currency.insert(
            pallet,
            (balance_in(d.currency, pallet) - currency_amount) as u128,
        ).insert(recipient, (balance_in(d.currency, recipient) + currency_amount) as u128)
    };
    DexView {
        currency: currency1,
        assets: assets1,
        exchanges: d.exchanges.insert(
            e.asset_id,
            Exchange {
                asset_id: e.asset_id,
                currency_reserve: (e.currency_reserve - currency_amount) as u128,
                token_reserve: (e.token_reserve + token_amount) as u128,
                liquidity_token_id: e.liquidity_token_id,
            },
        ),
        events: d.events.push(
            Event::AssetTradedForCurrency(e.asset_id, buyer, recipient, currency_amount,
            token_amount),
        ),
        ..d
    }
}

/// The first error a currency-to-asset trade runs into, or the resulting
/// state.
pub open spec fn currency_to_asset_outcome(
    d: DexView,
    caller: u64,
    asset_id: u32,
    amount: TradeAmount,
    deadline: u64,
    recipient: Option<u64>,
) -> Result<DexView, Error> {
    let to = if recipient is Some {
        recipient->0
    } else {
        caller
    };
    if deadline < d.block_number {
        Err(Error::DeadlinePassed)
    } else if !trade_amount_nonzero(amount) {
        Err(Error::TradeAmountIsZero)
    } else if !d.exchanges.contains_key(asset_id) {
        Err(Error::ExchangeNotFound)
    } else {
        let e = d.exchanges[asset_id];
        match amount {
            TradeAmount::FixedInput { input_amount, min_output } => {
                if !input_price_fits(
                    input_amount as int,
                    e.currency_reserve as int,
                    e.token_reserve as int,
                    d.fee_numerator as int,
                    d.fee_denominator as int,
                ) {
                    Err(Error::Overflow)
                } else {
                    let token_amount = spec_input_price(
                        input_amount as int,
                        e.currency_reserve as int,
                        e.token_reserve as int,
                        d.fee_numerator as int,
                        d.fee_denominator as int,
                    );
                    if token_amount < min_output {
                        Err(Error::MinTokensTooHigh)
                    } else if balance_in(d.currency, caller) < input_amount {
                        Err(Error::BalanceTooLow)
                    } else if balance_in(d.currency, d.pallet_account) + input_amount
                        > u128::MAX {
                        Err(Error::Overflow)
                    } else {
                        Ok(
                            swap_c2a_view(
                                d,
                                asset_id,
                                input_amount,
                                token_amount as u128,
                                caller,
                                to,
                            ),
                        )
                    }
                }
            },
            TradeAmount::FixedOutput { max_input, output_amount } => {
                if output_amount >= e.token_reserve {
                    Err(Error::NotEnoughLiquidity)
                } else if !output_price_fits(
                    output_amount as int,
                    e.currency_reserve as int,
                    e.token_reserve as int,
                    d.fee_numerator as int,
                    d.fee_denominator as int,
                ) {
                    Err(Error::Overflow)
                } else {
                    let currency_amount = sat_u128(
                        spec_output_price(
                            output_amount as int,
                            e.currency_reserve as int,
                            e.token_reserve as int,
                            d.fee_numerator as int,
                            d.fee_denominator as int,
                        ),
                    );
                    if currency_amount > max_input {
                        Err(Error::MaxCurrencyTooLow)
                    } else if balance_in(d.currency, caller) < currency_amount {
                        Err(Error::BalanceTooLow)
                    } else if balance_in(d.currency, d.pallet_account) + currency_amount
                        > u128::MAX {
                        Err(Error::Overflow)
                    } else {
                        Ok(
                            swap_c2a_view(
                                d,
                                asset_id,
                                currency_amount as u128,
                                output_amount,
                                caller,
                                to,
                            ),
                        )
                    }
                }
            },
        }
    }
}

/// The first error an asset-to-currency trade runs into, or the resulting
/// state.
pub open spec fn asset_to_currency_outcome(
    d: DexView,
    caller: u64,
    asset_id: u32,
    amount: TradeAmount,
    deadline: u64,
    recipient: Option<u64>,
) -> Result<DexView, Error> {
    let to = if recipient is Some {
        recipient->0
    } else {
        caller
    };
    if deadline < d.block_number {
        Err(Error::DeadlinePassed)
    } else if !trade_amount_nonzero(amount) {
        Err(Error::TradeAmountIsZero)
    } else if !d.exchanges.contains_key(asset_id) {
        Err(Error::ExchangeNotFound)
    } else {
        let e = d.exchanges[asset_id];
        match amount {
            TradeAmount::FixedInput { input_amount, min_output } => {
                if !input_price_fits(
                    input_amount as int,
                    e.token_reserve as int,
                    e.currency_reserve as int,
                    d.fee_numerator as int,
                    d.fee_denominator as int,
                ) {
                    Err(Error::Overflow)
                } else {
                    let currency_amount = spec_input_price(
                        input_amount as int,
                        e.token_reserve as int,
                        e.currency_reserve as int,
                        d.fee_numerator as int,
                        d.fee_denominator as int,
                    );
                    if currency_amount < min_output {
                        Err(Error::MinCurrencyTooHigh)
                    } else if !d.assets.contains_key(asset_id) || asset_balance(
                        d.assets,
                        asset_id,
                        caller,
                    ) < input_amount {
                        Err(Error::NotEnoughTokens)
                    } else if to != d.pallet_account && balance_in(d.currency, to)
                        + currency_amount > u128::MAX {
                        Err(Error::Overflow)
                    } else {
                        Ok(
                            swap_a2c_view(
                                d,
                                asset_id,
                                currency_amount as u128,
                                input_amount,
                                caller,
                                to,
                            ),
                        )
                    }
                }
            },
            TradeAmount::FixedOutput { max_input, output_amount } => {
                if output_amount >= e.currency_reserve {
                    Err(Error::NotEnoughLiquidity)
                } else if !output_price_fits(
                    output_amount as int,
                    e.token_reserve as int,
                    e.currency_reserve as int,
                    d.fee_numerator as int,
                    d.fee_denominator as int,
                ) {
                    Err(Error::Overflow)
                } else {
                    let token_amount = sat_u128(
                        spec_output_price(
                            output_amount as int,
                            e.token_reserve as int,
                            e.currency_reserve as int,
                            d.fee_numerator as int,
                            d.fee_denominator as int,
                        ),
                    );
                    if token_amount > max_input {
                        Err(Error::MaxTokensTooLow)
                    } else if !d.assets.contains_key(asset_id) || asset_balance(
                        d.assets,
                        asset_id,
                        caller,
                    ) < token_amount {
                        Err(Error::NotEnoughTokens)
                    } else if to != d.pallet_account && balance_in(d.currency, to)
                        + output_amount > u128::MAX {
                        Err(Error::Overflow)
                    } else {
                        Ok(
                            swap_a2c_view(
                                d,
                                asset_id,
                                output_amount,
                                token_amount as u128,
                                caller,
                                to,
                            ),
                        )
                    }
                }
            },
        }
    }
}

impl Dex {
    /// Commits a validated currency-to-asset swap: currency from the buyer
    /// to the custodial account (unless the pool itself buys), tokens from
    /// the custodial account to the recipient, reserves shifted, trade
    /// logged.
    pub(crate) fn swap_currency_for_asset(
        &mut self,
        asset_id: u32,
        currency_amount: u128,
        token_amount: u128,
        buyer: u64,
        recipient: u64,
    )
        requires
            old(self).wf(),
            old(self)@.exchanges.contains_key(asset_id),
            currency_amount >= 1,
            token_amount >= 1,
            token_amount < old(self)@.exchanges[asset_id].token_reserve,
            buyer != old(self)@.pallet_account ==> balance_in(old(self)@.currency, buyer)
                >= currency_amount && balance_in(
                old(self)@.currency,
                old(self)@.pallet_account,
            ) + currency_amount <= u128::MAX,
            buyer == old(self)@.pallet_account ==> old(self).exchanges.reserve_sum()
                + currency_amount <= balance_in(old(self)@.currency, old(self)@.pallet_account),
        ensures
            final(self).wf(),
            final(self).exchanges.reserve_sum() == old(self).exchanges.reserve_sum()
                + currency_amount,
            old(self)@.exchanges[asset_id].currency_reserve + currency_amount <= u128::MAX,
            final(self)@ == swap_c2a_view(
                old(self)@,
                asset_id,
                currency_amount,
                token_amount,
                buyer,
                recipient,
            ),
    {
        let exchange = match self.exchanges.lookup(asset_id) {
            Some(e) => e,
            None => {
                proof {
                    assert(false);
                }
                return ;
            },
        };
        proof {
            self.exchanges.lemma_reserve_le_sum(asset_id);
            assert(exchange_ok(self.exchanges@[asset_id], self.assets@, self.pallet_account));
        }
        let pallet = self.pallet_account;
        if buyer != pallet {
            let buyer_currency = self.currency.get(buyer);
            let pallet_currency = self.currency.get(pallet);
            self.currency.set(buyer, buyer_currency - currency_amount);
            self.currency.set(pallet, pallet_currency + currency_amount);
        }
        self.assets.transfer(exchange.asset_id, pallet, recipient, token_amount);
        self.exchanges.insert(
            Exchange {
                asset_id: exchange.asset_id,
                currency_reserve: exchange.currency_reserve + currency_amount,
                token_reserve: exchange.token_reserve - token_amount,
                liquidity_token_id: exchange.liquidity_token_id,
            },
        );
        self.events.push(
            Event::CurrencyTradedForAsset(
                exchange.asset_id,
                buyer,
                recipient,
                currency_amount,
                token_amount,
            ),
        );
        proof {
            let pre = *old(self);
            let post = *self;
            assert forall|id: u32| #[trigger] post.exchanges@.contains_key(id) implies post
                .exchanges@[id].asset_id == id && exchange_ok(
                post.exchanges@[id],
                post.assets@,
                post.pallet_account,
            ) by {
                if id != asset_id {
                    assert(pre.exchanges@.contains_key(id));
                    assert(exchange_ok(pre.exchanges@[id], pre.assets@, pre.pallet_account));
                }
            }
            assert forall|a: u32, b: u32|
                #![trigger post.exchanges@.contains_key(a), post.exchanges@.contains_key(b)]
                post.exchanges@.contains_key(a) && post.exchanges@.contains_key(b) && a
                != b implies post.exchanges@[a].liquidity_token_id
                != post.exchanges@[b].liquidity_token_id by {
                assert(pre.exchanges@.contains_key(a) && pre.exchanges@.contains_key(b));
            }
            assert(post@ =~~= swap_c2a_view(
                pre@,
                asset_id,
                currency_amount,
                token_amount,
                buyer,
                recipient,
            ));
        }
    }

    /// Commits a validated asset-to-currency swap: tokens from the buyer to
    /// the custodial account, currency from the custodial account to the
    /// recipient (unless the recipient is the pool itself), reserves
    /// shifted, trade logged.
    pub(crate) fn swap_asset_for_currency(
        &mut self,
        asset_id: u32,
        currency_amount: u128,
        token_amount: u128,
        buyer: u64,
        recipient: u64,
    )
        requires
            old(self).wf(),
            old(self)@.exchanges.contains_key(asset_id),
            buyer != old(self)@.pallet_account,
            currency_amount >= 1,
            token_amount >= 1,
            currency_amount < old(self)@.exchanges[asset_id].currency_reserve,
            asset_balance(old(self)@.assets, asset_id, buyer) >= token_amount,
            recipient != old(self)@.pallet_account ==> balance_in(old(self)@.currency, recipient)
                + currency_amount <= u128::MAX,
        ensures
            final(self).wf(),
            final(self).exchanges.reserve_sum() == old(self).exchanges.reserve_sum()
                - currency_amount,
            old(self)@.exchanges[asset_id].token_reserve + token_amount <= u128::MAX,
            final(self)@ == swap_a2c_view(
                old(self)@,
                asset_id,
                currency_amount,
                token_amount,
                buyer,
                recipient,
            ),
    {
        let exchange = match self.exchanges.lookup(asset_id) {
            Some(e) => e,
            None => {
                proof {
                    assert(false);
                }
                return ;
            },
        };
        proof {
            self.exchanges.lemma_reserve_le_sum(asset_id);
            assert(exchange_ok(self.exchanges@[asset_id], self.assets@, self.pallet_account));
        }
        let pallet = self.pallet_account;
        self.assets.transfer(exchange.asset_id, buyer, pallet, token_amount);
        if recipient != pallet {
            let pallet_currency = self.currency.get(pallet);
            let recipient_currency = self.currency.get(recipient);
            self.currency.set(pallet, pallet_currency - currency_amount);
            self.currency.set(recipient, recipient_currency + currency_amount);
        }
        self.exchanges.insert(
            Exchange {
                asset_id: exchange.asset_id,
                currency_reserve: exchange.currency_reserve - currency_amount,
                token_reserve: exchange.token_reserve + token_amount,
                liquidity_token_id: exchange.liquidity_token_id,
            },
        );
        self.events.push(
            Event::AssetTradedForCurrency(
                exchange.asset_id,
                buyer,
                recipient,
                currency_amount,
                token_amount,
            ),
        );
        proof {
            let pre = *old(self);
            let post = *self;
            assert forall|id: u32| #[trigger] post.exchanges@.contains_key(id) implies post
                .exchanges@[id].asset_id == id && exchange_ok(
                post.exchanges@[id],
                post.assets@,
                post.pallet_account,
            ) by {
                if id != asset_id {
                    assert(pre.exchanges@.contains_key(id));
                    assert(exchange_ok(pre.exchanges@[id], pre.assets@, pre.pallet_account));
                }
            }
            assert forall|a: u32, b: u32|
                #![trigger post.exchanges@.contains_key(a), post.exchanges@.contains_key(b)]
                post.exchanges@.contains_key(a) && post.exchanges@.contains_key(b) && a
                != b implies post.exchanges@[a].liquidity_token_id
                != post.exchanges@[b].liquidity_token_id by {
                assert(pre.exchanges@.contains_key(a) && pre.exchanges@.contains_key(b));
            }
            assert(post@ =~~= swap_a2c_view(
                pre@,
                asset_id,
                currency_amount,
                token_amount,
                buyer,
                recipient,
            ));
        }
    }

    /// Buys the asset of `asset_id` with currency. The caller either fixes
    /// the currency paid and bounds the tokens received from below, or
    /// fixes the tokens received and bounds the currency paid from above.
    /// Emits `CurrencyTradedForAsset`.
    pub fn currency_to_asset(
        &mut self,
        caller: u64,
        asset_id: u32,
        amount: TradeAmount,
        deadline: u64,
        recipient: Option<u64>,
    ) -> (r: Result<(), Error>)
        requires
            old(self).wf(),
            caller != old(self)@.pallet_account,
        ensures
            final(self).wf(),
            match r {
                Ok(()) => currency_to_asset_outcome(
                    old(self)@,
                    caller,
                    asset_id,
                    amount,
                    deadline,
                    recipient,
                ) == Ok::<DexView, Error>(final(self)@),
                Err(e) => currency_to_asset_outcome(
                    old(self)@,
                    caller,
                    asset_id,
                    amount,
                    deadline,
                    recipient,
                ) == Err::<DexView, Error>(e) && final(self)@ == old(self)@,
            },
            // The invariant product never decreases across a successful
            // swap: the fee stays in the pool.
            r is Ok ==> final(self)@.exchanges[asset_id].currency_reserve * final(self)@
                .exchanges[asset_id].token_reserve >= old(self)@
                .exchanges[asset_id].currency_reserve * old(self)@
                .exchanges[asset_id].token_reserve,
    {
        let to = match recipient {
            Some(r) => r,
            None => caller,
        };
        if let Err(e) = self.check_deadline(deadline) {
            return Err(e);
        }
        if let Err(e) = Self::check_trade_amount(&amount) {
            return Err(e);
        }
        let exchange = match self.get_exchange(asset_id) {
            Ok(e) => e,
            Err(e) => {
                return Err(e);
            },
        };
        proof {
            assert(exchange_ok(self.exchanges@[asset_id], self.assets@, self.pallet_account));
        }
        let (currency_amount, token_amount) = match amount {
            TradeAmount::FixedInput { input_amount, min_output } => {
                let token_amount = match get_input_price(
                    input_amount,
                    exchange.currency_reserve,
                    exchange.token_reserve,
                    self.fee_numerator,
                    self.fee_denominator,
                ) {
                    Ok(v) => v,
                    Err(e) => {
                        return Err(e);
                    },
                };
                if token_amount < min_output {
                    return Err(Error::MinTokensTooHigh);
                }
                proof {
                    let num = self.fee_numerator as int;
                    let den = self.fee_denominator as int;
                    let net = crate::pricing::net_input(input_amount as int, num, den);
                    assert(net >= 1) by (nonlinear_arith)
                        requires
                            net == input_amount * (den - num),
                            input_amount >= 1,
                            den - num >= 1,
                    ;
                    if exchange.token_reserve == 0 {
                        // a drained pool quotes zero, which the minimum rules out
                        vstd::arithmetic::mul::lemma_mul_nonnegative(
                            exchange.currency_reserve as int,
                            den,
                        );
                        let divisor = exchange.currency_reserve * den + net;
                        assert(divisor >= 1);
                        vstd::arithmetic::div_mod::lemma_div_basics(divisor);
                        assert(net * (exchange.token_reserve as int) == 0) by (nonlinear_arith)
                            requires
                                exchange.token_reserve as int == 0,
                        ;
                        assert(spec_input_price(
                            input_amount as int,
                            exchange.currency_reserve as int,
                            exchange.token_reserve as int,
                            num,
                            den,
                        ) == 0);
                        assert(min_output >= 1);
                        assert(false);
                    }
                    lemma_input_price_below_reserve(
                        input_amount as int,
                        exchange.currency_reserve as int,
                        exchange.token_reserve as int,
                        num,
                        den,
                    );
                }
                (input_amount, token_amount)
            },
            TradeAmount::FixedOutput { max_input, output_amount } => {
                let currency_amount = match get_output_price(
                    output_amount,
                    exchange.currency_reserve,
                    exchange.token_reserve,
                    self.fee_numerator,
                    self.fee_denominator,
                ) {
                    Ok(v) => v,
                    Err(e) => {
                        return Err(e);
                    },
                };
                if currency_amount > max_input {
                    return Err(Error::MaxCurrencyTooLow);
                }
                (currency_amount, output_amount)
            },
        };
        if let Err(e) = self.check_enough_currency(caller, currency_amount) {
            return Err(e);
        }
        let pallet = self.pallet_account;
        let pallet_currency = self.currency.get(pallet);
        if pallet_currency.checked_add(currency_amount).is_none() {
            return Err(Error::Overflow);
        }
        self.swap_currency_for_asset(asset_id, currency_amount, token_amount, caller, to);
        proof {
            let num = old(self)@.fee_numerator as int;
            let den = old(self)@.fee_denominator as int;
            let cr = exchange.currency_reserve as int;
            let tr = exchange.token_reserve as int;
            match amount {
                TradeAmount::FixedInput { input_amount, min_output } => {
                    crate::laws::lemma_fixed_input_swap_preserves_product(
                        input_amount as int,
                        cr,
                        tr,
                        num,
                        den,
                    );
                },
                TradeAmount::FixedOutput { max_input, output_amount } => {
                    // A clamped quote cannot pass validation: the custodial
                    // account covers every currency reserve, and its balance
                    // plus the charge was checked to fit.
                    if spec_output_price(output_amount as int, cr, tr, num, den) > u128::MAX {
                        assert(currency_amount == u128::MAX);
                        old(self).exchanges.lemma_reserve_le_sum(asset_id);
                        assert(old(self)@.exchanges[asset_id].currency_reserve == 0);
                        assert(false);
                    }
                    crate::laws::lemma_fixed_output_swap_preserves_product(
                        output_amount as int,
                        cr,
                        tr,
                        num,
                        den,
                    );
                },
            }
        }
        Ok(())
    }

    /// Sells the asset of `asset_id` for currency. The caller either fixes
    /// the tokens paid and bounds the currency received from below, or
    /// fixes the currency received and bounds the tokens paid from above.
    /// Emits `AssetTradedForCurrency`.
    pub fn asset_to_currency(
        &mut self,
        caller: u64,
        asset_id: u32,
        amount: TradeAmount,
        deadline: u64,
        recipient: Option<u64>,
    ) -> (r: Result<(), Error>)
        requires
            old(self).wf(),
            caller != old(self)@.pallet_account,
        ensures
            final(self).wf(),
            match r {
                Ok(()) => asset_to_currency_outcome(
                    old(self)@,
                    caller,
                    asset_id,
                    amount,
                    deadline,
                    recipient,
                ) == Ok::<DexView, Error>(final(self)@),
                Err(e) => asset_to_currency_outcome(
                    old(self)@,
                    caller,
                    asset_id,
                    amount,
                    deadline,
                    recipient,
                ) == Err::<DexView, Error>(e) && final(self)@ == old(self)@,
            },
            // The invariant product never decreases across a successful
            // swap: the fee stays in the pool.
            r is Ok ==> final(self)@.exchanges[asset_id].currency_reserve * final(self)@
                .exchanges[asset_id].token_reserve >= old(self)@
                .exchanges[asset_id].currency_reserve * old(self)@
                .exchanges[asset_id].token_reserve,
    {
        let to = match recipient {
            Some(r) => r,
            None => caller,
        };
        if let Err(e) = self.check_deadline(deadline) {
            return Err(e);
        }
        if let Err(e) = Self::check_trade_amount(&amount) {
            return Err(e);
        }
        let exchange = match self.get_exchange(asset_id) {
            Ok(e) => e,
            Err(e) => {
                return Err(e);
            },
        };
        proof {
            assert(exchange_ok(self.exchanges@[asset_id], self.assets@, self.pallet_account));
        }
        let (currency_amount, token_amount) = match amount {
            TradeAmount::FixedInput { input_amount, min_output } => {
                let currency_amount = match get_input_price(
                    input_amount,
                    exchange.token_reserve,
                    exchange.currency_reserve,
                    self.fee_numerator,
                    self.fee_denominator,
                ) {
                    Ok(v) => v,
                    Err(e) => {
                        return Err(e);
                    },
                };
                if currency_amount < min_output {
                    return Err(Error::MinCurrencyTooHigh);
                }
                proof {
                    let num = self.fee_numerator as int;
                    let den = self.fee_denominator as int;
                    let net = crate::pricing::net_input(input_amount as int, num, den);
                    assert(net >= 1) by (nonlinear_arith)
                        requires
                            net == input_amount * (den - num),
                            input_amount >= 1,
                            den - num >= 1,
                    ;
                    if exchange.currency_reserve == 0 {
                        // a drained pool quotes zero, which the minimum rules out
                        vstd::arithmetic::mul::lemma_mul_nonnegative(
                            exchange.token_reserve as int,
                            den,
                        );
                        let divisor = exchange.token_reserve * den + net;
                        assert(divisor >= 1);
                        vstd::arithmetic::div_mod::lemma_div_basics(divisor);
                        assert(net * (exchange.currency_reserve as int) == 0) by (nonlinear_arith)
                            requires
                                exchange.currency_reserve as int == 0,
                        ;
                        assert(spec_input_price(
                            input_amount as int,
                            exchange.token_reserve as int,
                            exchange.currency_reserve as int,
                            num,
                            den,
                        ) == 0);
                        assert(min_output >= 1);
                        assert(false);
                    }
                    lemma_input_price_below_reserve(
                        input_amount as int,
                        exchange.token_reserve as int,
                        exchange.currency_reserve as int,
                        num,
                        den,
                    );
                }
                (currency_amount, input_amount)
            },
            TradeAmount::FixedOutput { max_input, output_amount } => {
                let token_amount = match get_output_price(
                    output_amount,
                    exchange.token_reserve,
                    exchange.currency_reserve,
                    self.fee_numerator,
                    self.fee_denominator,
                ) {
                    Ok(v) => v,
                    Err(e) => {
                        return Err(e);
                    },
                };
                if token_amount > max_input {
                    return Err(Error::MaxTokensTooLow);
                }
                (output_amount, token_amount)
            },
        };
        if let Err(e) = self.check_enough_tokens(asset_id, caller, token_amount) {
            return Err(e);
        }
        let pallet = self.pallet_account;
        if to != pallet {
            let to_currency = self.currency.get(to);
            if to_currency.checked_add(currency_amount).is_none() {
                return Err(Error::Overflow);
            }
        }
        self.swap_asset_for_currency(asset_id, currency_amount, token_amount, caller, to);
        proof {
            let num = old(self)@.fee_numerator as int;
            let den = old(self)@.fee_denominator as int;
            let cr = exchange.currency_reserve as int;
            let tr = exchange.token_reserve as int;
            match amount {
                TradeAmount::FixedInput { input_amount, min_output } => {
                    crate::laws::lemma_fixed_input_swap_preserves_product(
                        input_amount as int,
                        tr,
                        cr,
                        num,
                        den,
                    );
                    assert(currency_amount == spec_input_price(
                        input_amount as int,
                        tr,
                        cr,
                        num,
                        den,
                    ));
                    assert(self@.exchanges[asset_id].currency_reserve == cr - currency_amount);
                    assert(self@.exchanges[asset_id].token_reserve == tr + input_amount);
                    assert((tr + input_amount) * (cr - currency_amount) >= tr * cr);
                    assert((cr - currency_amount) * (tr + input_amount) == (tr + input_amount) * (
                    cr - currency_amount)) by (nonlinear_arith);
                    assert(cr * tr == tr * cr) by (nonlinear_arith);
                },
                TradeAmount::FixedOutput { max_input, output_amount } => {
                    // A clamped quote cannot pass validation: the caller
                    // holds the charged tokens and the custodial account
                    // covers the token reserve, both out of one issuance.
                    if spec_output_price(output_amount as int, tr, cr, num, den) > u128::MAX {
                        assert(token_amount == u128::MAX);
                        old(self).assets.lemma_balances_le_total(
                            asset_id,
                            caller,
                            old(self)@.pallet_account,
                        );
                        assert(old(self)@.exchanges[asset_id].token_reserve == 0);
                        assert(false);
                    }
                    {
                        crate::laws::lemma_fixed_output_swap_preserves_product(
                            output_amount as int,
                            tr,
                            cr,
                            num,
                            den,
                        );
                        assert(token_amount == spec_output_price(
                            output_amount as int,
                            tr,
                            cr,
                            num,
                            den,
                        ));
                        assert(self@.exchanges[asset_id].currency_reserve == cr - output_amount);
                        assert(self@.exchanges[asset_id].token_reserve == tr + token_amount);
                        assert((tr + token_amount) * (cr - output_amount) >= tr * cr);
                        assert((cr - output_amount) * (tr + token_amount) == (tr + token_amount) * (
                        cr - output_amount)) by (nonlinear_arith);
                        assert(cr * tr == tr * cr) by (nonlinear_arith);
                    }
                },
            }
        }
        Ok(())
    }
}

/// The first error a compound asset-to-asset trade runs into, or the
/// resulting state: the sold asset is swapped for currency held by the
/// custodial account, which immediately buys the target asset.
pub open spec fn asset_to_asset_outcome(
    d: DexView,
    caller: u64,
    sold_asset_id: u32,
    bought_asset_id: u32,
    amount: TradeAmount,
    deadline: u64,
    recipient: Option<u64>,
) -> Result<DexView, Error> {
    let to = if recipient is Some {
        recipient->0
    } else {
        caller
    };
    if deadline < d.block_number {
        Err(Error::DeadlinePassed)
    } else if !trade_amount_nonzero(amount) {
        Err(Error::TradeAmountIsZero)
    } else if !d.exchanges.contains_key(sold_asset_id) {
        Err(Error::ExchangeNotFound)
    } else if !d.exchanges.contains_key(bought_asset_id) {
        Err(Error::ExchangeNotFound)
    } else {
        let es = d.exchanges[sold_asset_id];
        let eb = d.exchanges[bought_asset_id];
        let num = d.fee_numerator as int;
        let den = d.fee_denominator as int;
        match amount {
            TradeAmount::FixedInput { input_amount, min_output } => {
                if !input_price_fits(
                    input_amount as int,
                    es.token_reserve as int,
                    es.currency_reserve as int,
                    num,
                    den,
                ) {
                    Err(Error::Overflow)
                } else {
                    let currency_amount = spec_input_price(
                        input_amount as int,
                        es.token_reserve as int,
                        es.currency_reserve as int,
                        num,
                        den,
                    );
                    if currency_amount == 0 && eb.currency_reserve == 0 {
                        Err(Error::MinBoughtTokensTooHigh)
                    } else if !input_price_fits(
                        currency_amount,
                        eb.currency_reserve as int,
                        eb.token_reserve as int,
                        num,
                        den,
                    ) {
                        Err(Error::Overflow)
                    } else {
                        let bought_token_amount = spec_input_price(
                            currency_amount,
                            eb.currency_reserve as int,
                            eb.token_reserve as int,
                            num,
                            den,
                        );
                        if bought_token_amount < min_output {
                            Err(Error::MinBoughtTokensTooHigh)
                        } else if asset_balance(d.assets, sold_asset_id, caller) < input_amount {
                            Err(Error::NotEnoughTokens)
                        } else {
                            let mid = swap_a2c_view(
                                d,
                                sold_asset_id,
                                currency_amount as u128,
                                input_amount,
                                caller,
                                d.pallet_account,
                            );
                            Ok(
                                swap_c2a_view(
                                    mid,
                                    bought_asset_id,
                                    currency_amount as u128,
                                    bought_token_amount as u128,
                                    d.pallet_account,
                                    to,
                                ),
                            )
                        }
                    }
                }
            },
            TradeAmount::FixedOutput { max_input, output_amount } => {
                if output_amount >= eb.token_reserve {
                    Err(Error::NotEnoughLiquidity)
                } else if !output_price_fits(
                    output_amount as int,
                    eb.currency_reserve as int,
                    eb.token_reserve as int,
                    num,
                    den,
                ) {
                    Err(Error::Overflow)
                } else {
                    let currency_amount = sat_u128(
                        spec_output_price(
                            output_amount as int,
                            eb.currency_reserve as int,
                            eb.token_reserve as int,
                            num,
                            den,
                        ),
                    );
                    if currency_amount >= es.currency_reserve {
                        Err(Error::NotEnoughLiquidity)
                    } else if !output_price_fits(
                        currency_amount,
                        es.token_reserve as int,
                        es.currency_reserve as int,
                        num,
                        den,
                    ) {
                        Err(Error::Overflow)
                    } else {
                        let sold_token_amount = sat_u128(
                            spec_output_price(
                                currency_amount,
                                es.token_reserve as int,
                                es.currency_reserve as int,
                                num,
                                den,
                            ),
                        );
                        if sold_token_amount > max_input {
                            Err(Error::MaxSoldTokensTooLow)
                        } else if asset_balance(d.assets, sold_asset_id, caller)
                            < sold_token_amount {
                            Err(Error::NotEnoughTokens)
                        } else {
                            let mid = swap_a2c_view(
                                d,
                                sold_asset_id,
                                currency_amount as u128,
                                sold_token_amount as u128,
                                caller,
                                d.pallet_account,
                            );
                            Ok(
                                swap_c2a_view(
                                    mid,
                                    bought_asset_id,
                                    currency_amount as u128,
                                    output_amount,
                                    d.pallet_account,
                                    to,
                                ),
                            )
                        }
                    }
                }
            },
        }
    }
}

impl Dex {
    /// Trades the asset of `sold_asset_id` for the asset of
    /// `bought_asset_id` in two legs through the custodial account: the
    /// sold tokens buy currency from the first exchange, and that exact
    /// currency buys the target tokens from the second. Emits
    /// `AssetTradedForCurrency` then `CurrencyTradedForAsset`.
    pub fn asset_to_asset(
        &mut self,
        caller: u64,
        sold_asset_id: u32,
        bought_asset_id: u32,
        amount: TradeAmount,
        deadline: u64,
        recipient: Option<u64>,
    ) -> (r: Result<(), Error>)
        requires
            old(self).wf(),
            caller != old(self)@.pallet_account,
        ensures
            final(self).wf(),
            match r {
                Ok(()) => asset_to_asset_outcome(
                    old(self)@,
                    caller,
                    sold_asset_id,
                    bought_asset_id,
                    amount,
                    deadline,
                    recipient,
                ) == Ok::<DexView, Error>(final(self)@),
                Err(e) => asset_to_asset_outcome(
                    old(self)@,
                    caller,
                    sold_asset_id,
                    bought_asset_id,
                    amount,
                    deadline,
                    recipient,
                ) == Err::<DexView, Error>(e) && final(self)@ == old(self)@,
            },
    {
        let to = match recipient {
            Some(r) => r,
            None => caller,
        };
        if let Err(e) = self.check_deadline(deadline) {
            return Err(e);
        }
        if let Err(e) = Self::check_trade_amount(&amount) {
            return Err(e);
        }
        let sold_exchange = match self.get_exchange(sold_asset_id) {
            Ok(e) => e,
            Err(e) => {
                return Err(e);
            },
        };
        let bought_exchange = match self.get_exchange(bought_asset_id) {
            Ok(e) => e,
            Err(e) => {
                return Err(e);
            },
        };
        proof {
            assert(exchange_ok(self.exchanges@[sold_asset_id], self.assets@, self.pallet_account));
            assert(exchange_ok(
                self.exchanges@[bought_asset_id],
                self.assets@,
                self.pallet_account,
            ));
        }
        let (sold_token_amount, currency_amount, bought_token_amount) = match amount {
            TradeAmount::FixedInput { input_amount, min_output } => {
                let currency_amount = match get_input_price(
                    input_amount,
                    sold_exchange.token_reserve,
                    sold_exchange.currency_reserve,
                    self.fee_numerator,
                    self.fee_denominator,
                ) {
                    Ok(v) => v,
                    Err(e) => {
                        return Err(e);
                    },
                };
                if currency_amount == 0 && bought_exchange.currency_reserve == 0 {
                    return Err(Error::MinBoughtTokensTooHigh);
                }
                let bought_token_amount = match get_input_price(
                    currency_amount,
                    bought_exchange.currency_reserve,
                    bought_exchange.token_reserve,
                    self.fee_numerator,
                    self.fee_denominator,
                ) {
                    Ok(v) => v,
                    Err(e) => {
                        return Err(e);
                    },
                };
                if bought_token_amount < min_output {
                    return Err(Error::MinBoughtTokensTooHigh);
                }
                proof {
                    let num = self.fee_numerator as int;
                    let den = self.fee_denominator as int;
                    lemma_a2a_fixed_input_amounts(
                        input_amount,
                        currency_amount,
                        bought_token_amount,
                        sold_exchange,
                        bought_exchange,
                        num,
                        den,
                    );
                }
                (input_amount, currency_amount, bought_token_amount)
            },
            TradeAmount::FixedOutput { max_input, output_amount } => {
                let currency_amount = match get_output_price(
                    output_amount,
                    bought_exchange.currency_reserve,
                    bought_exchange.token_reserve,
                    self.fee_numerator,
                    self.fee_denominator,
                ) {
                    Ok(v) => v,
                    Err(e) => {
                        return Err(e);
                    },
                };
                let sold_token_amount = match get_output_price(
                    currency_amount,
                    sold_exchange.token_reserve,
                    sold_exchange.currency_reserve,
                    self.fee_numerator,
                    self.fee_denominator,
                ) {
                    Ok(v) => v,
                    Err(e) => {
                        return Err(e);
                    },
                };
                if sold_token_amount > max_input {
                    return Err(Error::MaxSoldTokensTooLow);
                }
                (sold_token_amount, currency_amount, output_amount)
            },
        };
        if let Err(e) = self.check_enough_tokens(sold_asset_id, caller, sold_token_amount) {
            return Err(e);
        }
        let pallet = self.pallet_account;
        self.swap_asset_for_currency(
            sold_asset_id,
            currency_amount,
            sold_token_amount,
            caller,
            pallet,
        );
        proof {
            if bought_asset_id == sold_asset_id {
                assert(self@.exchanges[bought_asset_id].token_reserve == old(self)@.exchanges[sold_asset_id].token_reserve + sold_token_amount);
            } else {
                assert(self@.exchanges[bought_asset_id] == old(self)@.exchanges[bought_asset_id]);
            }
        }
        self.swap_currency_for_asset(
            bought_asset_id,
            currency_amount,
            bought_token_amount,
            pallet,
            to,
        );
        Ok(())
    }
}

/// For a fixed-input compound trade that got past both quotes and the
/// minimum-output check: the intermediate currency amount is positive and
/// below the sold-side currency reserve, and the bought amount is positive
/// and below the bought-side token reserve.
proof fn lemma_a2a_fixed_input_amounts(
    input_amount: u128,
    currency_amount: u128,
    bought_token_amount: u128,
    es: Exchange,
    eb: Exchange,
    num: int,
    den: int,
)
    requires
        0 <= num < den,
        input_amount >= 1,
        bought_token_amount >= 1,
        es.currency_reserve == 0 <==> es.token_reserve == 0,
        eb.currency_reserve == 0 <==> eb.token_reserve == 0,
        currency_amount == spec_input_price(
            input_amount as int,
            es.token_reserve as int,
            es.currency_reserve as int,
            num,
            den,
        ),
        currency_amount >= 1 || eb.currency_reserve >= 1,
        bought_token_amount == spec_input_price(
            currency_amount as int,
            eb.currency_reserve as int,
            eb.token_reserve as int,
            num,
            den,
        ),
    ensures
        currency_amount >= 1,
        currency_amount < es.currency_reserve,
        bought_token_amount < eb.token_reserve,
{
    let net_in = crate::pricing::net_input(input_amount as int, num, den);
    assert(net_in >= 1) by (nonlinear_arith)
        requires
            net_in == input_amount * (den - num),
            input_amount >= 1,
            den - num >= 1,
    ;
    let net_cur = crate::pricing::net_input(currency_amount as int, num, den);
    // A zero intermediate amount would quote zero bought tokens.
    if currency_amount == 0 {
        assert(net_cur == 0) by (nonlinear_arith)
            requires
                net_cur == currency_amount * (den - num),
                currency_amount as int == 0,
        ;
        vstd::arithmetic::mul::lemma_mul_nonnegative(eb.currency_reserve as int, den);
        lemma_mul_inequality(1, eb.currency_reserve as int, den);
        vstd::arithmetic::div_mod::lemma_div_basics(eb.currency_reserve * den + net_cur);
        assert(net_cur * (eb.token_reserve as int) == 0) by (nonlinear_arith)
            requires
                net_cur == 0,
        ;
        assert(false);
    }
    // The sold side cannot be empty, or the quote would have been zero.
    if es.currency_reserve == 0 {
        vstd::arithmetic::div_mod::lemma_div_basics(es.token_reserve * den + net_in);
        assert(net_in * (es.currency_reserve as int) == 0) by (nonlinear_arith)
            requires
                es.currency_reserve as int == 0,
        ;
        assert(false);
    }
    lemma_input_price_below_reserve(
        input_amount as int,
        es.token_reserve as int,
        es.currency_reserve as int,
        num,
        den,
    );
    // The bought side cannot be empty, or the final quote would be zero.
    assert(net_cur >= 1) by (nonlinear_arith)
        requires
            net_cur == currency_amount * (den - num),
            currency_amount >= 1,
            den - num >= 1,
    ;
    if eb.token_reserve == 0 {
        vstd::arithmetic::mul::lemma_mul_nonnegative(eb.currency_reserve as int, den);
        vstd::arithmetic::div_mod::lemma_div_basics(eb.currency_reserve * den + net_cur);
        assert(net_cur * (eb.token_reserve as int) == 0) by (nonlinear_arith)
            requires
                eb.token_reserve as int == 0,
        ;
        assert(false);
    }
    lemma_input_price_below_reserve(
        currency_amount as int,
        eb.currency_reserve as int,
        eb.token_reserve as int,
        num,
        den,
    );
}

} // verus!
