//! The engine state: the exchange registry, the currency and asset
//! ledgers, the clock, the event log, and the configuration.
//!
//! Every public operation requires and preserves `Dex::wf`, the global
//! invariant tying the custodial account's holdings to the registered
//! reserves; the operations themselves live in the neighbouring modules.

use crate::accounts::{balance_in, BalanceMap};
use crate::assets::{asset_balance, asset_total, AssetLedger, AssetView};
use crate::exchanges::ExchangeMap;
use crate::types::{Error, Event, Exchange, TradeAmount};
use vstd::prelude::*;

verus! {

/// The ghost image of the whole engine.
#[verifier::ext_equal]
pub struct DexView {
    /// Currency balance per account.
    pub currency: Map<u64, u128>,
    /// Every fungible asset: traded assets and liquidity-share assets.
    pub assets: Map<u32, AssetView>,
    /// The registered exchanges, keyed by traded-asset identifier.
    pub exchanges: Map<u32, Exchange>,
    /// Every event emitted so far, oldest first.
    pub events: Seq<Event>,
    /// The current block number; deadlines are compared against it.
    pub block_number: u64,
    /// The pool's own custodial account.
    pub pallet_account: u64,
    /// Provider fee numerator.
    pub fee_numerator: u128,
    /// Provider fee denominator.
    pub fee_denominator: u128,
    /// Minimum currency deposit for a new exchange.
    pub min_deposit: u128,
}

/// What must hold of one registered exchange: reserves are zero or positive
/// together, outstanding shares imply a funded pool, both of its assets
/// exist and are distinct, and the custodial account covers the token
/// reserve.
pub open spec fn exchange_ok(e: Exchange, assets: Map<u32, AssetView>, pallet: u64) -> bool {
    &&& (e.currency_reserve == 0 <==> e.token_reserve == 0)
    &&& (asset_total(assets, e.liquidity_token_id) > 0 ==> e.currency_reserve > 0)
    &&& assets.contains_key(e.asset_id)
    &&& assets.contains_key(e.liquidity_token_id)
    &&& e.asset_id != e.liquidity_token_id
    &&& asset_balance(assets, e.asset_id, pallet) >= e.token_reserve
}

/// The whole engine, holding its own ledgers and registry.
pub struct Dex {
    /// Currency balances (the reference side of every pool).
    pub currency: BalanceMap,
    /// The fungible-asset ledger.
    pub assets: AssetLedger,
    /// The exchange registry.
    pub exchanges: ExchangeMap,
    /// The event log.
    pub events: Vec<Event>,
    /// The current block number.
    pub block_number: u64,
    /// The pool's custodial account.
    pub pallet_account: u64,
    /// Provider fee numerator.
    pub fee_numerator: u128,
    /// Provider fee denominator.
    pub fee_denominator: u128,
    /// Minimum currency deposit for a new exchange.
    pub min_deposit: u128,
}

impl View for Dex {
    type V = DexView;

    open spec fn view(&self) -> DexView {
        DexView {
            currency: self.currency@,
            assets: self.assets@,
            exchanges: self.exchanges@,
            events: self.events@,
            block_number: self.block_number,
            pallet_account: self.pallet_account,
            fee_numerator: self.fee_numerator,
            fee_denominator: self.fee_denominator,
            min_deposit: self.min_deposit,
        }
    }
}

impl Dex {
    /// The engine invariant: well-formed ledgers, a fee strictly below one,
    /// a positive minimum deposit, a custodial currency balance that covers
    /// the sum of all currency reserves, well-formed exchanges stored under
    /// their own asset identifier, and pairwise distinct liquidity-share
    /// assets.
    pub open spec fn wf(self) -> bool {
        &&& self.currency.wf()
        &&& self.assets.wf()
        &&& self.exchanges.wf()
        &&& self.fee_numerator < self.fee_denominator
        &&& self.min_deposit >= 1
        &&& self.exchanges.reserve_sum() <= balance_in(self.currency@, self.pallet_account)
        &&& forall|id: u32| #[trigger]
            self.exchanges@.contains_key(id) ==> self.exchanges@[id].asset_id == id
                && exchange_ok(self.exchanges@[id], self.assets@, self.pallet_account)
        &&& forall|a: u32, b: u32|
            #![trigger self.exchanges@.contains_key(a), self.exchanges@.contains_key(b)]
            self.exchanges@.contains_key(a) && self.exchanges@.contains_key(b) && a != b
                ==> self.exchanges@[a].liquidity_token_id != self.exchanges@[b].liquidity_token_id
    }

    /// A fresh engine with empty ledgers and no exchanges.
    pub fn new(
        pallet_account: u64,
        fee_numerator: u128,
        fee_denominator: u128,
        min_deposit: u128,
    ) -> (r: Dex)
        requires
            fee_numerator < fee_denominator,
            min_deposit >= 1,
        ensures
            r.wf(),
            r@ == (DexView {
                currency: Map::<u64, u128>::empty(),
                assets: Map::<u32, AssetView>::empty(),
                exchanges: Map::<u32, Exchange>::empty(),
                events: Seq::<Event>::empty(),
                block_number: 0,
                pallet_account,
                fee_numerator,
                fee_denominator,
                min_deposit,
            }),
    {
        Dex {
            currency: BalanceMap::new(),
            assets: AssetLedger::new(),
            exchanges: ExchangeMap::new(),
            events: Vec::new(),
            block_number: 0,
            pallet_account,
            fee_numerator,
            fee_denominator,
            min_deposit,
        }
    }

    /// The exchange registered for `asset_id`, if any.
    pub fn exchanges(&self, asset_id: u32) -> (r: Option<Exchange>)
        requires
            self.wf(),
        ensures
            match r {
                Some(e) => self@.exchanges.contains_key(asset_id) && e == self@.exchanges[asset_id],
                None => !self@.exchanges.contains_key(asset_id),
            },
    {
        self.exchanges.lookup(asset_id)
    }

    /// The free currency balance of `account`.
    pub fn free_balance(&self, account: u64) -> (r: u128)
        requires
            self.wf(),
        ensures
            r == balance_in(self@.currency, account),
    {
        self.currency.get(account)
    }

    /// The total issuance of asset `asset_id`; zero if it does not exist.
    pub fn total_issuance(&self, asset_id: u32) -> (r: u128)
        requires
            self.wf(),
        ensures
            r == asset_total(self@.assets, asset_id),
    {
        self.assets.total_issuance(asset_id)
    }

    /// The balance of `account` in asset `asset_id`, or `None` if the asset
    /// does not exist.
    pub fn maybe_balance(&self, asset_id: u32, account: u64) -> (r: Option<u128>)
        requires
            self.wf(),
        ensures
            self@.assets.contains_key(asset_id) ==> r == Some(
                asset_balance(self@.assets, asset_id, account),
            ),
            !self@.assets.contains_key(asset_id) ==> r is None,
    {
        self.assets.maybe_balance(asset_id, account)
    }

    /// The events emitted so far, oldest first.
    pub fn events(&self) -> (r: &Vec<Event>)
        ensures
            r@ == self@.events,
    {
        &self.events
    }

    /// The current block number.
    pub fn current_block(&self) -> (r: u64)
        ensures
            r == self@.block_number,
    {
        self.block_number
    }

    /// Advances (or rewinds) the clock.
    pub fn set_block_number(&mut self, n: u64)
        requires
            old(self).wf(),
        ensures
            final(self).wf(),
            final(self)@ == (DexView { block_number: n, ..old(self)@ }),
    {
        self.block_number = n;
    }

    /// Sets the free currency balance of `account` outright, as a genesis
    /// or test fixture would; the custodial account is out of bounds.
    pub fn set_free_balance(&mut self, account: u64, amount: u128)
        requires
            old(self).wf(),
            account != old(self)@.pallet_account,
        ensures
            final(self).wf(),
            final(self)@ == (DexView {
                currency: old(self)@.currency.insert(account, amount),
                ..old(self)@
            }),
    {
        self.currency.set(account, amount);
    }

    /// Creates a fungible asset with zero issuance.
    pub fn create_asset(&mut self, asset_id: u32) -> (r: Result<(), Error>)
        requires
            old(self).wf(),
        ensures
            final(self).wf(),
            r is Ok <==> !old(self)@.assets.contains_key(asset_id),
            r is Ok ==> final(self)@ == (DexView {
                assets: old(self)@.assets.insert(
                    asset_id,
                    AssetView { total: 0, balances: Map::empty() },
                ),
                ..old(self)@
            }),
            r is Err ==> r->Err_0 == Error::TokenIdTaken && final(self)@ == old(self)@,
    {
        let created = self.assets.create(asset_id);
        if created {
            proof {
                self.lemma_exchanges_unaffected_by_new_asset(*old(self), asset_id);
            }
            Ok(())
        } else {
            Err(Error::TokenIdTaken)
        }
    }

    /// Mints `amount` of `asset_id` into `account`. Re-minting the
    /// liquidity shares of a drained pool from outside is not modelled.
    pub fn mint_into(&mut self, asset_id: u32, account: u64, amount: u128) -> (r: Result<
        (),
        Error,
    >)
        requires
            old(self).wf(),
            forall|a: u32| #[trigger]
                old(self)@.exchanges.contains_key(a) ==> (old(
                    self,
                )@.exchanges[a].liquidity_token_id != asset_id
                    || old(self)@.exchanges[a].currency_reserve > 0),
        ensures
            final(self).wf(),
            r is Ok <==> old(self)@.assets.contains_key(asset_id) && asset_total(
                old(self)@.assets,
                asset_id,
            ) + amount <= u128::MAX,
            r is Ok ==> final(self)@ == (DexView {
                assets: old(self)@.assets.insert(
                    asset_id,
                    AssetView {
                        total: (asset_total(old(self)@.assets, asset_id) + amount) as u128,
                        balances: old(self)@.assets[asset_id].balances.insert(
                            account,
                            (asset_balance(old(self)@.assets, asset_id, account) + amount) as u128,
                        ),
                    },
                ),
                ..old(self)@
            }),
            r is Err ==> final(self)@ == old(self)@ && (r->Err_0 == Error::AssetNotFound
                <==> !old(self)@.assets.contains_key(asset_id)) && (r->Err_0 == Error::Overflow
                <==> old(self)@.assets.contains_key(asset_id)),
    {
        if !self.assets.contains(asset_id) {
            return Err(Error::AssetNotFound);
        }
        proof {
            self.assets.lemma_balance_le_total(asset_id, account);
        }
        let minted = self.assets.mint(asset_id, account, amount);
        if !minted {
            return Err(Error::Overflow);
        }
        proof {
            let pre = *old(self);
            assert forall|a: u32| #[trigger]
                pre.exchanges@.contains_key(a) implies (pre.exchanges@[a].liquidity_token_id
                != asset_id || asset_total(self.assets@, asset_id) == 0
                || pre.exchanges@[a].currency_reserve > 0) by {
                assert(old(self)@.exchanges.contains_key(a));
            }
            self.lemma_exchanges_survive_asset_change(pre, asset_id);
        }
        Ok(())
    }

    /// Burns `amount` of `asset_id` from `account`; the custodial account
    /// is out of bounds.
    pub fn burn_from(&mut self, asset_id: u32, account: u64, amount: u128) -> (r: Result<
        (),
        Error,
    >)
        requires
            old(self).wf(),
            account != old(self)@.pallet_account,
        ensures
            final(self).wf(),
            r is Ok <==> old(self)@.assets.contains_key(asset_id) && asset_balance(
                old(self)@.assets,
                asset_id,
                account,
            ) >= amount,
            r is Ok ==> final(self)@ == (DexView {
                assets: old(self)@.assets.insert(
                    asset_id,
                    AssetView {
                        total: (asset_total(old(self)@.assets, asset_id) - amount) as u128,
                        balances: old(self)@.assets[asset_id].balances.insert(
                            account,
                            (asset_balance(old(self)@.assets, asset_id, account) - amount) as u128,
                        ),
                    },
                ),
                ..old(self)@
            }),
            r is Err ==> final(self)@ == old(self)@ && (r->Err_0 == Error::AssetNotFound
                <==> !old(self)@.assets.contains_key(asset_id)) && (r->Err_0
                == Error::NotEnoughTokens <==> old(self)@.assets.contains_key(asset_id)),
    {
        if !self.assets.contains(asset_id) {
            return Err(Error::AssetNotFound);
        }
        if self.assets.balance(asset_id, account) < amount {
            return Err(Error::NotEnoughTokens);
        }
        proof {
            self.assets.lemma_balance_le_total(asset_id, account);
        }
        self.assets.burn(asset_id, account, amount);
        proof {
            assert forall|a: u32| #[trigger]
                old(self)@.exchanges.contains_key(a) implies (old(
                self,
            )@.exchanges[a].liquidity_token_id != asset_id || asset_total(
                self.assets@,
                asset_id,
            ) == 0 || old(self)@.exchanges[a].currency_reserve > 0) by {
                let e = old(self)@.exchanges[a];
                assert(exchange_ok(e, old(self)@.assets, old(self)@.pallet_account));
            }
            self.lemma_exchanges_survive_asset_change(*old(self), asset_id);
        }
        Ok(())
    }

    /// A brand-new asset is referenced by no exchange, so every exchange
    /// stays well-formed when it appears.
    proof fn lemma_exchanges_unaffected_by_new_asset(&self, pre: Dex, asset_id: u32)
        requires
            pre.wf(),
            !pre.assets@.contains_key(asset_id),
            self.currency == pre.currency,
            self.exchanges == pre.exchanges,
            self.pallet_account == pre.pallet_account,
            self.assets@ == pre.assets@.insert(
                asset_id,
                AssetView { total: 0, balances: Map::empty() },
            ),
        ensures
            forall|id: u32| #[trigger]
                self.exchanges@.contains_key(id) ==> exchange_ok(
                    self.exchanges@[id],
                    self.assets@,
                    self.pallet_account,
                ),
    {
        assert forall|id: u32| #[trigger] self.exchanges@.contains_key(id) implies exchange_ok(
            self.exchanges@[id],
            self.assets@,
            self.pallet_account,
        ) by {
            let e = self.exchanges@[id];
            assert(exchange_ok(e, pre.assets@, pre.pallet_account));
            assert(e.asset_id != asset_id && e.liquidity_token_id != asset_id);
        }
    }

    /// A mint into a non-custodial account, or a burn from one, never takes
    /// anything away from the custodial account, and only lowers an
    /// issuance total where the pool behind it is already funded.
    proof fn lemma_exchanges_survive_asset_change(&self, pre: Dex, asset_id: u32)
        requires
            pre.wf(),
            self.currency == pre.currency,
            self.exchanges == pre.exchanges,
            self.pallet_account == pre.pallet_account,
            self.assets@.contains_key(asset_id),
            pre.assets@.contains_key(asset_id),
            self.assets@ =~= pre.assets@.insert(asset_id, self.assets@[asset_id]),
            asset_balance(self.assets@, asset_id, self.pallet_account) >= asset_balance(
                pre.assets@,
                asset_id,
                self.pallet_account,
            ),
            forall|a: u32| #[trigger]
                pre.exchanges@.contains_key(a) ==> (pre.exchanges@[a].liquidity_token_id != asset_id
                    || asset_total(self.assets@, asset_id) == 0
                    || pre.exchanges@[a].currency_reserve > 0),
        ensures
            forall|id: u32| #[trigger]
                self.exchanges@.contains_key(id) ==> exchange_ok(
                    self.exchanges@[id],
                    self.assets@,
                    self.pallet_account,
                ),
    {
        assert forall|id: u32| #[trigger] self.exchanges@.contains_key(id) implies exchange_ok(
            self.exchanges@[id],
            self.assets@,
            self.pallet_account,
        ) by {
            let e = self.exchanges@[id];
            assert(exchange_ok(e, pre.assets@, pre.pallet_account));
        }
    }

    /// The operation must be included no later than its deadline.
    pub(crate) fn check_deadline(&self, deadline: u64) -> (r: Result<(), Error>)
        ensures
            r is Ok <==> deadline >= self@.block_number,
            r is Err ==> r->Err_0 == Error::DeadlinePassed,
    {
        if deadline >= self.block_number {
            Ok(())
        } else {
            Err(Error::DeadlinePassed)
        }
    }

    /// Both sides of a trade request must be declared non-zero.
    pub(crate) fn check_trade_amount(amount: &TradeAmount) -> (r: Result<(), Error>)
        ensures
            r is Ok <==> trade_amount_nonzero(*amount),
            r is Err ==> r->Err_0 == Error::TradeAmountIsZero,
    {
        match *amount {
            TradeAmount::FixedInput { input_amount, min_output } => {
                if input_amount == 0 || min_output == 0 {
                    return Err(Error::TradeAmountIsZero);
                }
            },
            TradeAmount::FixedOutput { max_input, output_amount } => {
                if output_amount == 0 || max_input == 0 {
                    return Err(Error::TradeAmountIsZero);
                }
            },
        }
        Ok(())
    }

    /// The caller must hold the currency it is about to spend.
    pub(crate) fn check_enough_currency(&self, account: u64, amount: u128) -> (r: Result<
        (),
        Error,
    >)
        requires
            self.wf(),
        ensures
            r is Ok <==> balance_in(self@.currency, account) >= amount,
            r is Err ==> r->Err_0 == Error::BalanceTooLow,
    {
        if self.currency.get(account) >= amount {
            Ok(())
        } else {
            Err(Error::BalanceTooLow)
        }
    }

    /// The caller must hold the asset tokens it is about to spend.
    pub(crate) fn check_enough_tokens(&self, asset_id: u32, account: u64, amount: u128) -> (r:
        Result<(), Error>)
        requires
            self.wf(),
        ensures
            r is Ok <==> self@.assets.contains_key(asset_id) && asset_balance(
                self@.assets,
                asset_id,
                account,
            ) >= amount,
            r is Err ==> (r->Err_0 == Error::AssetNotFound <==> !self@.assets.contains_key(
                asset_id,
            )),
            r is Err ==> (r->Err_0 == Error::NotEnoughTokens <==> self@.assets.contains_key(
                asset_id,
            )),
    {
        if !self.assets.contains(asset_id) {
            return Err(Error::AssetNotFound);
        }
        if self.assets.balance(asset_id, account) < amount {
            return Err(Error::NotEnoughTokens);
        }
        Ok(())
    }

    /// The caller must own the liquidity shares it is about to burn.
    pub(crate) fn check_enough_liquidity_owned(
        &self,
        exchange: &Exchange,
        account: u64,
        amount: u128,
    ) -> (r: Result<(), Error>)
        requires
            self.wf(),
            self@.assets.contains_key(exchange.liquidity_token_id),
        ensures
            r is Ok <==> asset_balance(self@.assets, exchange.liquidity_token_id, account)
                >= amount,
            r is Err ==> r->Err_0 == Error::ProviderLiquidityTooLow,
    {
        if self.assets.balance(exchange.liquidity_token_id, account) < amount {
            return Err(Error::ProviderLiquidityTooLow);
        }
        Ok(())
    }

    /// The exchange registered for `asset_id`, or `ExchangeNotFound`.
    pub(crate) fn get_exchange(&self, asset_id: u32) -> (r: Result<Exchange, Error>)
        requires
            self.wf(),
        ensures
            r is Ok <==> self@.exchanges.contains_key(asset_id),
            r is Ok ==> r->Ok_0 == self@.exchanges[asset_id],
            r is Err ==> r->Err_0 == Error::ExchangeNotFound,
    {
        match self.exchanges.lookup(asset_id) {
            Some(e) => Ok(e),
            None => Err(Error::ExchangeNotFound),
        }
    }
}

/// Both declared legs of a trade request are non-zero.
pub open spec fn trade_amount_nonzero(a: TradeAmount) -> bool {
    match a {
        TradeAmount::FixedInput { input_amount, min_output } => input_amount > 0 && min_output > 0,
        TradeAmount::FixedOutput { max_input, output_amount } => output_amount > 0 && max_input
            > 0,
    }
}

} // verus!
