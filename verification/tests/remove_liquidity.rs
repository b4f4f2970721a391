use dex::{Dex, Error, Event, GenesisConfig, TradeAmount};

const ACCOUNT_A: u64 = 0;
const ACCOUNT_B: u64 = 1;
const ACCOUNT_C: u64 = 2;
const PALLET_ACCOUNT: u64 = 9_999;
const INIT_BALANCE: u128 = 1_000_000_000_000_000;
const INIT_LIQUIDITY: u128 = 1_000_000_000_000;
const ASSET_A: u32 = 100;
const ASSET_B: u32 = 101;
const LIQ_TOKEN_A: u32 = 200;
const LIQ_TOKEN_B: u32 = 201;

fn new_test_dex() -> Dex {
    let mut dex = Dex::new(PALLET_ACCOUNT, 3, 1000, 1);
    for account in [ACCOUNT_A, ACCOUNT_B, ACCOUNT_C] {
        dex.set_free_balance(account, INIT_BALANCE);
    }
    dex.create_asset(ASSET_A).unwrap();
    dex.create_asset(ASSET_B).unwrap();
    for account in [ACCOUNT_A, ACCOUNT_B, ACCOUNT_C] {
        dex.mint_into(ASSET_A, account, INIT_BALANCE).unwrap();
        dex.mint_into(ASSET_B, account, INIT_BALANCE).unwrap();
    }
    let genesis = GenesisConfig {
        exchanges: vec![(ACCOUNT_A, ASSET_A, LIQ_TOKEN_A, INIT_LIQUIDITY, INIT_LIQUIDITY)],
    };
    genesis.build(&mut dex);
    dex.set_block_number(1);
    dex
}

#[test]
fn remove_liquidity() {
    let mut dex = new_test_dex();
    dex.remove_liquidity(ACCOUNT_A, ASSET_A, 500, 500, 500, 1).unwrap();
    let exchange = dex.exchanges(ASSET_A).unwrap();
    assert_eq!(exchange.currency_reserve, INIT_LIQUIDITY - 500);
    assert_eq!(exchange.token_reserve, INIT_LIQUIDITY - 500);
    assert_eq!(dex.free_balance(ACCOUNT_A), INIT_BALANCE - INIT_LIQUIDITY + 500);
    assert_eq!(
        dex.maybe_balance(ASSET_A, ACCOUNT_A),
        Some(INIT_BALANCE - INIT_LIQUIDITY + 500)
    );
    assert_eq!(
        dex.maybe_balance(exchange.liquidity_token_id, ACCOUNT_A),
        Some(INIT_LIQUIDITY - 500)
    );
    assert_eq!(dex.total_issuance(exchange.liquidity_token_id), INIT_LIQUIDITY - 500);
    assert_eq!(dex.free_balance(PALLET_ACCOUNT), INIT_LIQUIDITY - 500);
    assert_eq!(dex.maybe_balance(ASSET_A, PALLET_ACCOUNT), Some(INIT_LIQUIDITY - 500));
    let events = dex.events();
    assert_eq!(
        events[events.len() - 1],
        Event::LiquidityRemoved(ACCOUNT_A, ASSET_A, 500, 500, 500)
    );
}

#[test]
fn remove_liquidity_deadline_passed() {
    let mut dex = new_test_dex();
    assert_eq!(
        dex.remove_liquidity(ACCOUNT_A, ASSET_A, 500, 500, 500, 0),
        Err(Error::DeadlinePassed)
    );
}

#[test]
fn remove_zero_liquidity() {
    let mut dex = new_test_dex();
    assert_eq!(
        dex.remove_liquidity(ACCOUNT_A, ASSET_A, 0, 500, 500, 1),
        Err(Error::LiquidityAmountIsZero)
    );
}

#[test]
fn remove_liquidity_min_currency_zero() {
    let mut dex = new_test_dex();
    assert_eq!(
        dex.remove_liquidity(ACCOUNT_A, ASSET_A, 500, 0, 500, 1),
        Err(Error::MinCurrencyIsZero)
    );
}

#[test]
fn remove_liquidity_min_tokens_zero() {
    let mut dex = new_test_dex();
    assert_eq!(
        dex.remove_liquidity(ACCOUNT_A, ASSET_A, 500, 500, 0, 1),
        Err(Error::MinTokensIsZero)
    );
}

#[test]
fn remove_liquidity_exchange_not_found() {
    let mut dex = new_test_dex();
    assert_eq!(
        dex.remove_liquidity(ACCOUNT_A, ASSET_B, 500, 500, 500, 1),
        Err(Error::ExchangeNotFound)
    );
}

#[test]
fn remove_liquidity_provider_liquidity_too_low() {
    let mut dex = new_test_dex();
    assert_eq!(
        dex.remove_liquidity(
            ACCOUNT_A,
            ASSET_A,
            INIT_LIQUIDITY + 500,
            INIT_LIQUIDITY + 500,
            INIT_LIQUIDITY + 500,
            1
        ),
        Err(Error::ProviderLiquidityTooLow)
    );
}

#[test]
fn remove_liquidity_min_currency_too_high() {
    let mut dex = new_test_dex();
    assert_eq!(
        dex.remove_liquidity(ACCOUNT_A, ASSET_A, 500, 1_500, 500, 1),
        Err(Error::MinCurrencyTooHigh)
    );
}

#[test]
fn remove_liquidity_min_tokens_too_high() {
    let mut dex = new_test_dex();
    assert_eq!(
        dex.remove_liquidity(ACCOUNT_A, ASSET_A, 500, 500, 1_500, 1),
        Err(Error::MinTokensTooHigh)
    );
}
