//! Liquidity accounting: creating an exchange, adding liquidity to one,
//! and withdrawing liquidity from one.
//!
//! A later deposit must match the current reserve ratio: the token amount
//! is the ceiling of the proportional amount plus one (the pool is never
//! short-changed by truncation), while the shares minted are the floor of
//! the proportional amount (the provider is never over-credited). A
//! withdrawal pays out the floor of the proportional share of each reserve.

use crate::accounts::balance_in;
use crate::assets::{asset_balance, asset_total, AssetView};
use crate::dex::{exchange_ok, Dex, DexView};
use crate::math::{div_ceil, mul_div_ceil, mul_div_floor, sat_u128};
use crate::types::{Error, Event, Exchange};
use vstd::arithmetic::div_mod::{
    lemma_div_is_ordered, lemma_div_multiples_vanish, lemma_fundamental_div_mod,
};
use vstd::arithmetic::mul::lemma_mul_inequality;
use vstd::prelude::*;

verus! {

/// Tokens owed for a deposit of `currency_amount` against reserves
/// `(currency_reserve, token_reserve)`: the proportional amount, rounded
/// up, plus one.
pub open spec fn spec_token_amount(
    currency_amount: u128,
    token_reserve: u128,
    currency_reserve: u128,
) -> int {
    sat_u128(div_ceil(currency_amount * token_reserve, currency_reserve as int) + 1)
}

/// Liquidity shares minted for a deposit of `currency_amount`: the
/// proportional share of the outstanding supply, rounded down.
pub open spec fn spec_liquidity_minted(
    currency_amount: u128,
    total_liquidity: u128,
    currency_reserve: u128,
) -> int {
    sat_u128((currency_amount * total_liquidity) / (currency_reserve as int))
}

/// What burning `liquidity_amount` of `total_liquidity` shares pays out of
/// a reserve: the proportional share, rounded down.
pub open spec fn spec_share_of(liquidity_amount: u128, reserve: u128, total_liquidity: u128) -> int {
    (liquidity_amount * reserve) / (total_liquidity as int)
}

/// The state after a deposit takes effect: the provider's currency and
/// tokens move into the custodial account, fresh shares are minted to the
/// provider, the reserves grow, and the deposit is logged.
pub open spec fn do_add_view(
    d: DexView,
    e: Exchange,
    currency_amount: u128,
    token_amount: u128,
    liquidity_minted: u128,
    provider: u64,
) -> DexView {
    let pallet = d.pallet_account;
    let assets1 = d.assets.insert(
        e.asset_id,
        AssetView {
            total: asset_total(d.assets, e.asset_id),
            balances: d.assets[e.asset_id].balances.insert(
                provider,
                (asset_balance(d.assets, e.asset_id, provider) - token_amount) as u128,
            ).insert(pallet, (asset_balance(d.assets, e.asset_id, pallet) + token_amount) as u128),
        },
    );
    DexView {
        currency: d.currency.insert(
            provider,
            (balance_in(d.currency, provider) - currency_amount) as u128,
        ).insert(pallet, (balance_in(d.currency, pallet) + currency_amount) as u128),
        assets: assets1.insert(
            e.liquidity_token_id,
            AssetView {
                total: (asset_total(assets1, e.liquidity_token_id) + liquidity_minted) as u128,
                balances: assets1[e.liquidity_token_id].balances.insert(
                    provider,
                    (asset_balance(assets1, e.liquidity_token_id, provider)
                        + liquidity_minted) as u128,
                ),
            },
        ),
        exchanges: d.exchanges.insert(
            e.asset_id,
            Exchange {
                asset_id: e.asset_id,
                currency_reserve: (e.currency_reserve + currency_amount) as u128,
                token_reserve: (e.token_reserve + token_amount) as u128,
                liquidity_token_id: e.liquidity_token_id,
            },
        ),
        events: d.events.push(
            Event::LiquidityAdded(
                provider,
                e.asset_id,
                currency_amount,
                token_amount,
                liquidity_minted,
            ),
        ),
        ..d
    }
}

/// The first error an exchange creation runs into, or the resulting state.
pub open spec fn create_exchange_outcome(
    d: DexView,
    caller: u64,
    asset_id: u32,
    liquidity_token_id: u32,
    currency_amount: u128,
    token_amount: u128,
) -> Result<DexView, Error> {
    if currency_amount < d.min_deposit {
        Err(Error::CurrencyAmountTooLow)
    } else if token_amount == 0 {
        Err(Error::TokenAmountIsZero)
    } else if asset_total(d.assets, asset_id) == 0 {
        Err(Error::AssetNotFound)
    } else if d.exchanges.contains_key(asset_id) {
        Err(Error::ExchangeAlreadyExists)
    } else if d.assets.contains_key(liquidity_token_id) {
        Err(Error::TokenIdTaken)
    } else if balance_in(d.currency, caller) < currency_amount {
        Err(Error::BalanceTooLow)
    } else if asset_balance(d.assets, asset_id, caller) < token_amount {
        Err(Error::NotEnoughTokens)
    } else if balance_in(d.currency, d.pallet_account) + currency_amount > u128::MAX {
        Err(Error::Overflow)
    } else {
        let e = Exchange { asset_id, currency_reserve: 0, token_reserve: 0, liquidity_token_id };
        let d1 = DexView {
            assets: d.assets.insert(
                liquidity_token_id,
                AssetView { total: 0, balances: Map::empty() },
            ),
            ..d
        };
        let d2 = do_add_view(d1, e, currency_amount, token_amount, currency_amount, caller);
        Ok(
            DexView {
                events: d2.events.push(Event::ExchangeCreated(asset_id, liquidity_token_id)),
                ..d2
            },
        )
    }
}

/// The first error a deposit runs into, or the resulting state. A deposit
/// into a pool with no outstanding shares re-seeds it as a first deposit:
/// the declared maximum of tokens is taken as is, one share is minted per
/// currency unit, and `min_liquidity` is not checked at all.
pub open spec fn add_liquidity_outcome(
    d: DexView,
    caller: u64,
    asset_id: u32,
    currency_amount: u128,
    min_liquidity: u128,
    max_tokens: u128,
    deadline: u64,
) -> Result<DexView, Error> {
    if deadline < d.block_number {
        Err(Error::DeadlinePassed)
    } else if currency_amount == 0 {
        Err(Error::CurrencyAmountIsZero)
    } else if max_tokens == 0 {
        Err(Error::MaxTokensIsZero)
    } else if balance_in(d.currency, caller) < currency_amount {
        Err(Error::BalanceTooLow)
    } else if !d.assets.contains_key(asset_id) {
        Err(Error::AssetNotFound)
    } else if asset_balance(d.assets, asset_id, caller) < max_tokens {
        Err(Error::NotEnoughTokens)
    } else if !d.exchanges.contains_key(asset_id) {
        Err(Error::ExchangeNotFound)
    } else {
        let e = d.exchanges[asset_id];
        let total_liquidity = asset_total(d.assets, e.liquidity_token_id);
        let token_amount = if total_liquidity > 0 {
            spec_token_amount(currency_amount, e.token_reserve, e.currency_reserve)
        } else {
            max_tokens as int
        };
        let liquidity_minted = if total_liquidity > 0 {
            spec_liquidity_minted(currency_amount, total_liquidity, e.currency_reserve)
        } else {
            currency_amount as int
        };
        if total_liquidity > 0 && min_liquidity == 0 {
            Err(Error::MinLiquidityIsZero)
        } else if token_amount > max_tokens {
            Err(Error::MaxTokensTooLow)
        } else if total_liquidity > 0 && liquidity_minted < min_liquidity {
            Err(Error::MinLiquidityTooHigh)
        } else if balance_in(d.currency, d.pallet_account) + currency_amount > u128::MAX {
            Err(Error::Overflow)
        } else if total_liquidity + liquidity_minted > u128::MAX {
            Err(Error::Overflow)
        } else {
            Ok(
                do_add_view(
                    d,
                    e,
                    currency_amount,
                    token_amount as u128,
                    liquidity_minted as u128,
                    caller,
                ),
            )
        }
    }
}

impl Dex {
    /// Moves a validated deposit into the pool: currency and tokens to the
    /// custodial account, fresh shares to the provider, reserves up,
    /// deposit logged.
    pub(crate) fn do_add_liquidity(
        &mut self,
        exchange: Exchange,
        currency_amount: u128,
        token_amount: u128,
        liquidity_minted: u128,
        provider: u64,
    )
        requires
            old(self).wf(),
            provider != old(self)@.pallet_account,
            old(self)@.assets.contains_key(exchange.asset_id),
            old(self)@.assets.contains_key(exchange.liquidity_token_id),
            exchange.asset_id != exchange.liquidity_token_id,
            old(self)@.exchanges.contains_key(exchange.asset_id) ==> old(
                self,
            )@.exchanges[exchange.asset_id] == exchange,
            !old(self)@.exchanges.contains_key(exchange.asset_id) ==> exchange.currency_reserve == 0
                && exchange.token_reserve == 0 && (forall|a: u32| #[trigger]
                old(self)@.exchanges.contains_key(a) ==> old(self)@.exchanges[a].liquidity_token_id
                    != exchange.liquidity_token_id),
            currency_amount >= 1,
            token_amount >= 1,
            balance_in(old(self)@.currency, provider) >= currency_amount,
            balance_in(old(self)@.currency, old(self)@.pallet_account) + currency_amount
                <= u128::MAX,
            asset_balance(old(self)@.assets, exchange.asset_id, provider) >= token_amount,
            asset_total(old(self)@.assets, exchange.liquidity_token_id) + liquidity_minted
                <= u128::MAX,
        ensures
            final(self).wf(),
            final(self)@ == do_add_view(
                old(self)@,
                exchange,
                currency_amount,
                token_amount,
                liquidity_minted,
                provider,
            ),
    {
        proof {
            self.exchanges.lemma_reserve_le_sum(exchange.asset_id);
        }
        let pallet = self.pallet_account;
        let provider_currency = self.currency.get(provider);
        let pallet_currency = self.currency.get(pallet);
        self.currency.set(provider, provider_currency - currency_amount);
        self.currency.set(pallet, pallet_currency + currency_amount);
        self.assets.transfer(exchange.asset_id, provider, pallet, token_amount);
        let minted = self.assets.mint(exchange.liquidity_token_id, provider, liquidity_minted);
        proof {
            assert(minted);
        }
        self.exchanges.insert(
            Exchange {
                asset_id: exchange.asset_id,
                currency_reserve: exchange.currency_reserve + currency_amount,
                token_reserve: exchange.token_reserve + token_amount,
                liquidity_token_id: exchange.liquidity_token_id,
            },
        );
        self.events.push(
            Event::LiquidityAdded(
                provider,
                exchange.asset_id,
                currency_amount,
                token_amount,
                liquidity_minted,
            ),
        );
        proof {
            let pre = *old(self);
            let post = *self;
            assert forall|id: u32| #[trigger] post.exchanges@.contains_key(id) implies post
                .exchanges@[id].asset_id == id && exchange_ok(
                post.exchanges@[id],
                post.assets@,
                post.pallet_account,
            ) by {
                if id != exchange.asset_id {
                    assert(pre.exchanges@.contains_key(id));
                    assert(exchange_ok(pre.exchanges@[id], pre.assets@, pre.pallet_account));
                }
            }
            assert forall|a: u32, b: u32|
                #![trigger post.exchanges@.contains_key(a), post.exchanges@.contains_key(b)]
                post.exchanges@.contains_key(a) && post.exchanges@.contains_key(b) && a
                != b implies post.exchanges@[a].liquidity_token_id
                != post.exchanges@[b].liquidity_token_id by {
                if a != exchange.asset_id && b != exchange.asset_id {
                    assert(pre.exchanges@.contains_key(a) && pre.exchanges@.contains_key(b));
                } else if a == exchange.asset_id {
                    assert(pre.exchanges@.contains_key(b));
                    if pre.exchanges@.contains_key(a) {
                    } else {
                        assert(pre.exchanges@[b].liquidity_token_id
                            != exchange.liquidity_token_id);
                    }
                } else {
                    assert(pre.exchanges@.contains_key(a));
                    if pre.exchanges@.contains_key(b) {
                    } else {
                        assert(pre.exchanges@[a].liquidity_token_id
                            != exchange.liquidity_token_id);
                    }
                }
            }
            assert(post@ =~~= do_add_view(
                pre@,
                exchange,
                currency_amount,
                token_amount,
                liquidity_minted,
                provider,
            ));
        }
    }

    /// Creates a new exchange for `asset_id`, provisions the
    /// liquidity-share asset, and seeds the pool with the caller's initial
    /// deposit. Emits `LiquidityAdded` and `ExchangeCreated`.
    pub fn create_exchange(
        &mut self,
        caller: u64,
        asset_id: u32,
        liquidity_token_id: u32,
        currency_amount: u128,
        token_amount: u128,
    ) -> (r: Result<(), Error>)
        requires
            old(self).wf(),
            caller != old(self)@.pallet_account,
        ensures
            final(self).wf(),
            match r {
                Ok(()) => create_exchange_outcome(
                    old(self)@,
                    caller,
                    asset_id,
                    liquidity_token_id,
                    currency_amount,
                    token_amount,
                ) == Ok::<DexView, Error>(final(self)@),
                Err(e) => create_exchange_outcome(
                    old(self)@,
                    caller,
                    asset_id,
                    liquidity_token_id,
                    currency_amount,
                    token_amount,
                ) == Err::<DexView, Error>(e) && final(self)@ == old(self)@,
            },
    {
        if currency_amount < self.min_deposit {
            return Err(Error::CurrencyAmountTooLow);
        }
        if token_amount == 0 {
            return Err(Error::TokenAmountIsZero);
        }
        if self.assets.total_issuance(asset_id) == 0 {
            return Err(Error::AssetNotFound);
        }
        if self.exchanges.contains(asset_id) {
            return Err(Error::ExchangeAlreadyExists);
        }
        if self.assets.contains(liquidity_token_id) {
            return Err(Error::TokenIdTaken);
        }
        if self.currency.get(caller) < currency_amount {
            return Err(Error::BalanceTooLow);
        }
        if self.assets.balance(asset_id, caller) < token_amount {
            return Err(Error::NotEnoughTokens);
        }
        let pallet = self.pallet_account;
        let pallet_currency = self.currency.get(pallet);
        if pallet_currency.checked_add(currency_amount).is_none() {
            return Err(Error::Overflow);
        }
        let created = self.assets.create(liquidity_token_id);
        proof {
            assert(created);
            let pre = *old(self);
            let mid = *self;
            assert forall|id: u32| #[trigger] mid.exchanges@.contains_key(id) implies mid
                .exchanges@[id].asset_id == id && exchange_ok(
                mid.exchanges@[id],
                mid.assets@,
                mid.pallet_account,
            ) by {
                assert(exchange_ok(pre.exchanges@[id], pre.assets@, pre.pallet_account));
                assert(pre.exchanges@[id].asset_id != liquidity_token_id);
                assert(pre.exchanges@[id].liquidity_token_id != liquidity_token_id);
            }
        }
        let exchange = Exchange {
            asset_id,
            currency_reserve: 0,
            token_reserve: 0,
            liquidity_token_id,
        };
        proof {
            assert forall|a: u32| #[trigger] self.exchanges@.contains_key(a) implies self
                .exchanges@[a].liquidity_token_id != liquidity_token_id by {
                assert(exchange_ok(
                    old(self).exchanges@[a],
                    old(self).assets@,
                    old(self).pallet_account,
                ));
            }
        }
        self.do_add_liquidity(exchange, currency_amount, token_amount, currency_amount, caller);
        self.events.push(Event::ExchangeCreated(asset_id, liquidity_token_id));
        proof {
            assert(final(self)@ =~~= create_exchange_outcome(
                old(self)@,
                caller,
                asset_id,
                liquidity_token_id,
                currency_amount,
                token_amount,
            )->Ok_0);
        }
        Ok(())
    }

    /// Adds liquidity to the exchange for `asset_id`: the caller deposits
    /// an exact currency amount and at most `max_tokens` matching tokens,
    /// and receives at least `min_liquidity` freshly minted shares. A pool
    /// with no outstanding shares is re-seeded as by a first deposit, with
    /// `min_liquidity` not checked. Emits `LiquidityAdded`.
    pub fn add_liquidity(
        &mut self,
        caller: u64,
        asset_id: u32,
        currency_amount: u128,
        min_liquidity: u128,
        max_tokens: u128,
        deadline: u64,
    ) -> (r: Result<(), Error>)
        requires
            old(self).wf(),
            caller != old(self)@.pallet_account,
        ensures
            final(self).wf(),
            match r {
                Ok(()) => add_liquidity_outcome(
                    old(self)@,
                    caller,
                    asset_id,
                    currency_amount,
                    min_liquidity,
                    max_tokens,
                    deadline,
                ) == Ok::<DexView, Error>(final(self)@),
                Err(e) => add_liquidity_outcome(
                    old(self)@,
                    caller,
                    asset_id,
                    currency_amount,
                    min_liquidity,
                    max_tokens,
                    deadline,
                ) == Err::<DexView, Error>(e) && final(self)@ == old(self)@,
            },
    {
        if let Err(e) = self.check_deadline(deadline) {
            return Err(e);
        }
        if currency_amount == 0 {
            return Err(Error::CurrencyAmountIsZero);
        }
        if max_tokens == 0 {
            return Err(Error::MaxTokensIsZero);
        }
        if let Err(e) = self.check_enough_currency(caller, currency_amount) {
            return Err(e);
        }
        if let Err(e) = self.check_enough_tokens(asset_id, caller, max_tokens) {
            return Err(e);
        }
        let exchange = match self.get_exchange(asset_id) {
            Ok(e) => e,
            Err(e) => {
                return Err(e);
            },
        };
        let total_liquidity = self.assets.total_issuance(exchange.liquidity_token_id);
        proof {
            assert(exchange_ok(self.exchanges@[asset_id], self.assets@, self.pallet_account));
        }
        let (token_amount, liquidity_minted) = if total_liquidity > 0 {
            let ceiling = mul_div_ceil(
                currency_amount,
                exchange.token_reserve,
                exchange.currency_reserve,
            );
            let token_amount = if ceiling == u128::MAX {
                u128::MAX
            } else {
                ceiling + 1
            };
            let liquidity_minted = mul_div_floor(
                currency_amount,
                total_liquidity,
                exchange.currency_reserve,
            );
            (token_amount, liquidity_minted)
        } else {
            (max_tokens, currency_amount)
        };
        if total_liquidity > 0 && min_liquidity == 0 {
            return Err(Error::MinLiquidityIsZero);
        }
        if token_amount > max_tokens {
            return Err(Error::MaxTokensTooLow);
        }
        if total_liquidity > 0 && liquidity_minted < min_liquidity {
            return Err(Error::MinLiquidityTooHigh);
        }
        let pallet = self.pallet_account;
        let pallet_currency = self.currency.get(pallet);
        if pallet_currency.checked_add(currency_amount).is_none() {
            return Err(Error::Overflow);
        }
        if total_liquidity.checked_add(liquidity_minted).is_none() {
            return Err(Error::Overflow);
        }
        self.do_add_liquidity(exchange, currency_amount, token_amount, liquidity_minted, caller);
        Ok(())
    }
}

/// A proportional share never exceeds the reserve it is taken from.
proof fn lemma_share_le(liquidity_amount: u128, reserve: u128, total_liquidity: u128)
    requires
        1 <= liquidity_amount <= total_liquidity,
    ensures
        0 <= spec_share_of(liquidity_amount, reserve, total_liquidity) <= reserve,
{
    vstd::arithmetic::mul::lemma_mul_nonnegative(liquidity_amount as int, reserve as int);
    lemma_div_is_ordered(0, liquidity_amount * reserve, total_liquidity as int);
    lemma_mul_inequality(liquidity_amount as int, total_liquidity as int, reserve as int);
    lemma_div_is_ordered(
        liquidity_amount * reserve,
        total_liquidity * reserve,
        total_liquidity as int,
    );
    lemma_div_multiples_vanish(reserve as int, total_liquidity as int);
    assert(total_liquidity * reserve == (total_liquidity as int) * (reserve as int))
        by (nonlinear_arith);
}

/// Burning strictly fewer shares than the whole supply leaves part of a
/// positive reserve behind.
proof fn lemma_share_lt(liquidity_amount: u128, reserve: u128, total_liquidity: u128)
    requires
        1 <= liquidity_amount < total_liquidity,
        reserve >= 1,
    ensures
        spec_share_of(liquidity_amount, reserve, total_liquidity) < reserve,
{
    let q = spec_share_of(liquidity_amount, reserve, total_liquidity);
    let n = liquidity_amount * reserve;
    let tl = total_liquidity as int;
    lemma_fundamental_div_mod(n, tl);
    vstd::arithmetic::div_mod::lemma_mod_bound(n, tl);
    if q >= reserve {
        lemma_mul_inequality(reserve as int, q, tl);
        assert(reserve * tl >= liquidity_amount * reserve + reserve) by (nonlinear_arith)
            requires
                tl >= liquidity_amount + 1,
                reserve >= 1,
        ;
        assert(q * tl == tl * q) by (nonlinear_arith);
        assert(false);
    }
}

/// Burning the whole supply pays out the whole reserve.
proof fn lemma_share_full(reserve: u128, total_liquidity: u128)
    requires
        total_liquidity >= 1,
    ensures
        spec_share_of(total_liquidity, reserve, total_liquidity) == reserve,
{
    lemma_div_multiples_vanish(reserve as int, total_liquidity as int);
    assert(total_liquidity * reserve == (total_liquidity as int) * (reserve as int))
        by (nonlinear_arith);
}

/// The state after a withdrawal takes effect: the provider's shares are
/// burned, currency and tokens move from the custodial account to the
/// provider, the reserves shrink, and the withdrawal is logged.
pub open spec fn do_remove_view(
    d: DexView,
    e: Exchange,
    currency_amount: u128,
    token_amount: u128,
    liquidity_amount: u128,
    provider: u64,
) -> DexView {
    let pallet = d.pallet_account;
    let assets1 = d.assets.insert(
        e.liquidity_token_id,
        AssetView {
            total: (asset_total(d.assets, e.liquidity_token_id) - liquidity_amount) as u128,
            balances: d.assets[e.liquidity_token_id].balances.insert(
                provider,
                (asset_balance(d.assets, e.liquidity_token_id, provider)
                    - liquidity_amount) as u128,
            ),
        },
    );
    DexView {
        currency: d.currency.insert(
            pallet,
            (balance_in(d.currency, pallet) - currency_amount) as u128,
        ).insert(provider, (balance_in(d.currency, provider) + currency_amount) as u128),
        assets: assets1.insert(
            e.asset_id,
            AssetView {
                total: asset_total(assets1, e.asset_id),
                balances: assets1[e.asset_id].balances.insert(
                    pallet,
                    (asset_balance(assets1, e.asset_id, pallet) - token_amount) as u128,
                ).insert(
                    provider,
                    (asset_balance(assets1, e.asset_id, provider) + token_amount) as u128,
                ),
            },
        ),
        exchanges: d.exchanges.insert(
            e.asset_id,
            Exchange {
                asset_id: e.asset_id,
                currency_reserve: (e.currency_reserve - currency_amount) as u128,
                token_reserve: (e.token_reserve - token_amount) as u128,
                liquidity_token_id: e.liquidity_token_id,
            },
        ),
        events: d.events.push(
            Event::LiquidityRemoved(
                provider,
                e.asset_id,
                currency_amount,
                token_amount,
                liquidity_amount,
            ),
        ),
        ..d
    }
}

/// The first error a withdrawal runs into, or the resulting state.
pub open spec fn remove_liquidity_outcome(
    d: DexView,
    caller: u64,
    asset_id: u32,
    liquidity_amount: u128,
    min_currency: u128,
    min_tokens: u128,
    deadline: u64,
) -> Result<DexView, Error> {
    if deadline < d.block_number {
        Err(Error::DeadlinePassed)
    } else if liquidity_amount == 0 {
        Err(Error::LiquidityAmountIsZero)
    } else if min_currency == 0 {
        Err(Error::MinCurrencyIsZero)
    } else if min_tokens == 0 {
        Err(Error::MinTokensIsZero)
    } else if !d.exchanges.contains_key(asset_id) {
        Err(Error::ExchangeNotFound)
    } else {
        let e = d.exchanges[asset_id];
        if asset_balance(d.assets, e.liquidity_token_id, caller) < liquidity_amount {
            Err(Error::ProviderLiquidityTooLow)
        } else {
            let total_liquidity = asset_total(d.assets, e.liquidity_token_id);
            let currency_amount = spec_share_of(
                liquidity_amount,
                e.currency_reserve,
                total_liquidity,
            );
            let token_amount = spec_share_of(liquidity_amount, e.token_reserve, total_liquidity);
            if currency_amount < min_currency {
                Err(Error::MinCurrencyTooHigh)
            } else if token_amount < min_tokens {
                Err(Error::MinTokensTooHigh)
            } else if balance_in(d.currency, caller) + currency_amount > u128::MAX {
                Err(Error::Overflow)
            } else {
                Ok(
                    do_remove_view(
                        d,
                        e,
                        currency_amount as u128,
                        token_amount as u128,
                        liquidity_amount,
                        caller,
                    ),
                )
            }
        }
    }
}

impl Dex {
    /// Moves a validated withdrawal out of the pool: shares burned,
    /// currency and tokens to the provider, reserves down, withdrawal
    /// logged.
    pub(crate) fn do_remove_liquidity(
        &mut self,
        exchange: Exchange,
        currency_amount: u128,
        token_amount: u128,
        liquidity_amount: u128,
        provider: u64,
    )
        requires
            old(self).wf(),
            provider != old(self)@.pallet_account,
            old(self)@.exchanges.contains_key(exchange.asset_id),
            old(self)@.exchanges[exchange.asset_id] == exchange,
            liquidity_amount >= 1,
            asset_balance(old(self)@.assets, exchange.liquidity_token_id, provider)
                >= liquidity_amount,
            currency_amount <= exchange.currency_reserve,
            token_amount <= exchange.token_reserve,
            currency_amount == exchange.currency_reserve <==> token_amount
                == exchange.token_reserve,
            asset_total(old(self)@.assets, exchange.liquidity_token_id) - liquidity_amount > 0
                ==> exchange.currency_reserve - currency_amount > 0,
            balance_in(old(self)@.currency, provider) + currency_amount <= u128::MAX,
        ensures
            final(self).wf(),
            final(self)@ == do_remove_view(
                old(self)@,
                exchange,
                currency_amount,
                token_amount,
                liquidity_amount,
                provider,
            ),
    {
        proof {
            self.exchanges.lemma_reserve_le_sum(exchange.asset_id);
            self.assets.lemma_balance_le_total(exchange.liquidity_token_id, provider);
            assert(exchange_ok(
                self.exchanges@[exchange.asset_id],
                self.assets@,
                self.pallet_account,
            ));
        }
        let pallet = self.pallet_account;
        self.assets.burn(exchange.liquidity_token_id, provider, liquidity_amount);
        let pallet_currency = self.currency.get(pallet);
        let provider_currency = self.currency.get(provider);
        self.currency.set(pallet, pallet_currency - currency_amount);
        self.currency.set(provider, provider_currency + currency_amount);
        self.assets.transfer(exchange.asset_id, pallet, provider, token_amount);
        self.exchanges.insert(
            Exchange {
                asset_id: exchange.asset_id,
                currency_reserve: exchange.currency_reserve - currency_amount,
                token_reserve: exchange.token_reserve - token_amount,
                liquidity_token_id: exchange.liquidity_token_id,
            },
        );
        self.events.push(
            Event::LiquidityRemoved(
                provider,
                exchange.asset_id,
                currency_amount,
                token_amount,
                liquidity_amount,
            ),
        );
        proof {
            let pre = *old(self);
            let post = *self;
            assert forall|id: u32| #[trigger] post.exchanges@.contains_key(id) implies post
                .exchanges@[id].asset_id == id && exchange_ok(
                post.exchanges@[id],
                post.assets@,
                post.pallet_account,
            ) by {
                if id != exchange.asset_id {
                    assert(pre.exchanges@.contains_key(id));
                    assert(exchange_ok(pre.exchanges@[id], pre.assets@, pre.pallet_account));
                }
            }
            assert forall|a: u32, b: u32|
                #![trigger post.exchanges@.contains_key(a), post.exchanges@.contains_key(b)]
                post.exchanges@.contains_key(a) && post.exchanges@.contains_key(b) && a
                != b implies post.exchanges@[a].liquidity_token_id
                != post.exchanges@[b].liquidity_token_id by {
                assert(pre.exchanges@.contains_key(a) && pre.exchanges@.contains_key(b));
            }
            assert(post@ =~~= do_remove_view(
                pre@,
                exchange,
                currency_amount,
                token_amount,
                liquidity_amount,
                provider,
            ));
        }
    }

    /// Removes liquidity from the exchange for `asset_id`: the caller burns
    /// an exact amount of shares and receives the proportional part of both
    /// reserves, bounded from below by `min_currency` and `min_tokens`.
    /// Emits `LiquidityRemoved`.
    pub fn remove_liquidity(
        &mut self,
        caller: u64,
        asset_id: u32,
        liquidity_amount: u128,
        min_currency: u128,
        min_tokens: u128,
        deadline: u64,
    ) -> (r: Result<(), Error>)
        requires
            old(self).wf(),
            caller != old(self)@.pallet_account,
        ensures
            final(self).wf(),
            match r {
                Ok(()) => remove_liquidity_outcome(
                    old(self)@,
                    caller,
                    asset_id,
                    liquidity_amount,
                    min_currency,
                    min_tokens,
                    deadline,
                ) == Ok::<DexView, Error>(final(self)@),
                Err(e) => remove_liquidity_outcome(
                    old(self)@,
                    caller,
                    asset_id,
                    liquidity_amount,
                    min_currency,
                    min_tokens,
                    deadline,
                ) == Err::<DexView, Error>(e) && final(self)@ == old(self)@,
            },
    {
        if let Err(e) = self.check_deadline(deadline) {
            return Err(e);
        }
        if liquidity_amount == 0 {
            return Err(Error::LiquidityAmountIsZero);
        }
        if min_currency == 0 {
            return Err(Error::MinCurrencyIsZero);
        }
        if min_tokens == 0 {
            return Err(Error::MinTokensIsZero);
        }
        let exchange = match self.get_exchange(asset_id) {
            Ok(e) => e,
            Err(e) => {
                return Err(e);
            },
        };
        proof {
            assert(exchange_ok(self.exchanges@[asset_id], self.assets@, self.pallet_account));
        }
        if let Err(e) = self.check_enough_liquidity_owned(&exchange, caller, liquidity_amount) {
            return Err(e);
        }
        let total_liquidity = self.assets.total_issuance(exchange.liquidity_token_id);
        proof {
            self.assets.lemma_balance_le_total(exchange.liquidity_token_id, caller);
            lemma_share_le(liquidity_amount, exchange.currency_reserve, total_liquidity);
            lemma_share_le(liquidity_amount, exchange.token_reserve, total_liquidity);
            if liquidity_amount < total_liquidity {
                lemma_share_lt(liquidity_amount, exchange.currency_reserve, total_liquidity);
                lemma_share_lt(liquidity_amount, exchange.token_reserve, total_liquidity);
            } else {
                lemma_share_full(exchange.currency_reserve, total_liquidity);
                lemma_share_full(exchange.token_reserve, total_liquidity);
            }
        }
        let currency_amount = mul_div_floor(
            liquidity_amount,
            exchange.currency_reserve,
            total_liquidity,
        );
        let token_amount = mul_div_floor(liquidity_amount, exchange.token_reserve, total_liquidity);
        if currency_amount < min_currency {
            return Err(Error::MinCurrencyTooHigh);
        }
        if token_amount < min_tokens {
            return Err(Error::MinTokensTooHigh);
        }
        let caller_currency = self.currency.get(caller);
        if caller_currency.checked_add(currency_amount).is_none() {
            return Err(Error::Overflow);
        }
        self.do_remove_liquidity(exchange, currency_amount, token_amount, liquidity_amount, caller);
        Ok(())
    }
}

/// One genesis entry:
/// `(provider, asset_id, liquidity_token_id, currency_amount, token_amount)`.
pub type GenesisExchangeInfo = (u64, u32, u32, u128, u128);

/// Exchanges to provision at genesis, before any call is dispatched.
pub struct GenesisConfig {
    /// One entry per exchange to seed.
    pub exchanges: Vec<GenesisExchangeInfo>,
}

impl Default for GenesisConfig {
    /// A genesis with no exchanges.
    fn default() -> (r: GenesisConfig)
        ensures
            r.exchanges@ == Seq::<GenesisExchangeInfo>::empty(),
    {
        GenesisConfig { exchanges: Vec::new() }
    }
}

/// What one genesis entry needs of the state it is applied to: the traded
/// asset exists and the provider can fund the deposit, the liquidity token
/// and the exchange slot are free, and the custodial account can take the
/// currency.
pub open spec fn seed_pre(d: DexView, entry: GenesisExchangeInfo) -> bool {
    let (provider, asset_id, liquidity_token_id, currency_amount, token_amount) = entry;
    &&& currency_amount >= 1
    &&& token_amount >= 1
    &&& provider != d.pallet_account
    &&& d.assets.contains_key(asset_id)
    &&& !d.assets.contains_key(liquidity_token_id)
    &&& !d.exchanges.contains_key(asset_id)
    &&& balance_in(d.currency, provider) >= currency_amount
    &&& balance_in(d.currency, d.pallet_account) + currency_amount <= u128::MAX
    &&& asset_balance(d.assets, asset_id, provider) >= token_amount
}

/// The state after one genesis entry is applied: the liquidity token is
/// created and the pool seeded as by a first deposit, with no events.
pub open spec fn seed_view(d: DexView, entry: GenesisExchangeInfo) -> DexView {
    let (provider, asset_id, liquidity_token_id, currency_amount, token_amount) = entry;
    let e = Exchange { asset_id, currency_reserve: 0, token_reserve: 0, liquidity_token_id };
    let d1 = DexView {
        assets: d.assets.insert(liquidity_token_id, AssetView { total: 0, balances: Map::empty() }),
        ..d
    };
    DexView {
        events: d.events,
        ..do_add_view(d1, e, currency_amount, token_amount, currency_amount, provider)
    }
}

/// Every genesis entry is applicable, each against the state left by the
/// ones before it.
pub open spec fn genesis_ok(d: DexView, entries: Seq<GenesisExchangeInfo>) -> bool
    decreases entries.len(),
{
    entries.len() == 0 || (seed_pre(d, entries[0]) && genesis_ok(
        seed_view(d, entries[0]),
        entries.drop_first(),
    ))
}

/// The state after all genesis entries are applied in order.
pub open spec fn genesis_view(d: DexView, entries: Seq<GenesisExchangeInfo>) -> DexView
    decreases entries.len(),
{
    if entries.len() == 0 {
        d
    } else {
        genesis_view(seed_view(d, entries[0]), entries.drop_first())
    }
}

impl Dex {
    /// Provisions one exchange at genesis, bypassing call validation but
    /// establishing the same invariants; emits nothing.
    fn seed_exchange(
        &mut self,
        provider: u64,
        asset_id: u32,
        liquidity_token_id: u32,
        currency_amount: u128,
        token_amount: u128,
    )
        requires
            old(self).wf(),
            seed_pre(
                old(self)@,
                (provider, asset_id, liquidity_token_id, currency_amount, token_amount),
            ),
        ensures
            final(self).wf(),
            final(self)@ == seed_view(
                old(self)@,
                (provider, asset_id, liquidity_token_id, currency_amount, token_amount),
            ),
    {
        let created = self.assets.create(liquidity_token_id);
        proof {
            assert(created);
            let pre = *old(self);
            let mid = *self;
            assert forall|id: u32| #[trigger] mid.exchanges@.contains_key(id) implies mid
                .exchanges@[id].asset_id == id && exchange_ok(
                mid.exchanges@[id],
                mid.assets@,
                mid.pallet_account,
            ) by {
                assert(exchange_ok(pre.exchanges@[id], pre.assets@, pre.pallet_account));
                assert(pre.exchanges@[id].asset_id != liquidity_token_id);
                assert(pre.exchanges@[id].liquidity_token_id != liquidity_token_id);
            }
        }
        let exchange = Exchange {
            asset_id,
            currency_reserve: 0,
            token_reserve: 0,
            liquidity_token_id,
        };
        proof {
            assert forall|a: u32| #[trigger] self.exchanges@.contains_key(a) implies self
                .exchanges@[a].liquidity_token_id != liquidity_token_id by {
                assert(exchange_ok(
                    old(self).exchanges@[a],
                    old(self).assets@,
                    old(self).pallet_account,
                ));
            }
        }
        self.do_add_liquidity(exchange, currency_amount, token_amount, currency_amount, provider);
        // The deposit helper logs every deposit, but genesis provisioning
        // is silent: take the entry back off the log.
        let _ = self.events.pop();
        proof {
            assert(self.events@ =~= old(self).events@);
            assert(final(self)@ =~~= seed_view(
                old(self)@,
                (provider, asset_id, liquidity_token_id, currency_amount, token_amount),
            ));
        }
    }
}

impl GenesisConfig {
    /// Applies every genesis entry, in order, to a fresh engine.
    pub fn build(&self, dex: &mut Dex)
        requires
            old(dex).wf(),
            genesis_ok(old(dex)@, self.exchanges@),
        ensures
            final(dex).wf(),
            final(dex)@ == genesis_view(old(dex)@, self.exchanges@),
    {
        let n = self.exchanges.len();
        let mut i: usize = 0;
        proof {
            assert(self.exchanges@.skip(0) =~= self.exchanges@);
        }
        while i < n
            invariant
                n == self.exchanges@.len(),
                i <= n,
                dex.wf(),
                genesis_ok(dex@, self.exchanges@.skip(i as int)),
                genesis_view(dex@, self.exchanges@.skip(i as int)) == genesis_view(
                    old(dex)@,
                    self.exchanges@,
                ),
            decreases n - i,
        {
            let (provider, asset_id, liquidity_token_id, currency_amount, token_amount) =
                self.exchanges[i];
            proof {
                let rest = self.exchanges@.skip(i as int);
                assert(rest[0] == self.exchanges@[i as int]);
                assert(rest.drop_first() =~= self.exchanges@.skip(i as int + 1));
            }
            dex.seed_exchange(provider, asset_id, liquidity_token_id, currency_amount, token_amount);
            i += 1;
        }
        proof {
            assert(self.exchanges@.skip(n as int) =~= Seq::<GenesisExchangeInfo>::empty());
        }
    }
}

} // verus!
