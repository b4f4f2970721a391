use dex::{Dex, Error, Event, GenesisConfig, TradeAmount};

const ACCOUNT_A: u64 = 0;
const ACCOUNT_B: u64 = 1;
const ACCOUNT_C: u64 = 2;
const PALLET_ACCOUNT: u64 = 9_999;
const INIT_BALANCE: u128 = 1_000_000_000_000_000;
const INIT_LIQUIDITY: u128 = 1_000_000_000_000;
const ASSET_A: u32 = 100;
const ASSET_B: u32 = 101;
const LIQ_TOKEN_A: u32 = 200;
const LIQ_TOKEN_B: u32 = 201;

fn new_test_dex() -> Dex {
    let mut dex = Dex::new(PALLET_ACCOUNT, 3, 1000, 1);
    for account in [ACCOUNT_A, ACCOUNT_B, ACCOUNT_C] {
        dex.set_free_balance(account, INIT_BALANCE);
    }
    dex.create_asset(ASSET_A).unwrap();
    dex.create_asset(ASSET_B).unwrap();
    for account in [ACCOUNT_A, ACCOUNT_B, ACCOUNT_C] {
        dex.mint_into(ASSET_A, account, INIT_BALANCE).unwrap();
        dex.mint_into(ASSET_B, account, INIT_BALANCE).unwrap();
    }
    let genesis = GenesisConfig {
        exchanges: vec![(ACCOUNT_A, ASSET_A, LIQ_TOKEN_A, INIT_LIQUIDITY, INIT_LIQUIDITY)],
    };
    genesis.build(&mut dex);
    dex.set_block_number(1);
    dex
}

#[test]
fn add_liquidity() {
    let mut dex = new_test_dex();
    dex.add_liquidity(ACCOUNT_B, ASSET_A, 1_000, 1_000, 1_001, 1).unwrap();

    let exchange = dex.exchanges(ASSET_A).unwrap();
    assert_eq!(exchange.currency_reserve, INIT_LIQUIDITY + 1_000);
    assert_eq!(exchange.token_reserve, INIT_LIQUIDITY + 1_001);
    assert_eq!(dex.free_balance(ACCOUNT_B), INIT_BALANCE - 1_000);
    assert_eq!(dex.maybe_balance(ASSET_A, ACCOUNT_B), Some(INIT_BALANCE - 1_001));
    assert_eq!(dex.maybe_balance(exchange.liquidity_token_id, ACCOUNT_B), Some(1_000));
    assert_eq!(dex.total_issuance(exchange.liquidity_token_id), INIT_LIQUIDITY + 1_000);
    assert_eq!(dex.free_balance(PALLET_ACCOUNT), INIT_LIQUIDITY + 1_000);
    assert_eq!(dex.maybe_balance(ASSET_A, PALLET_ACCOUNT), Some(INIT_LIQUIDITY + 1_001));
    let events = dex.events();
    assert_eq!(
        events[events.len() - 1],
        Event::LiquidityAdded(ACCOUNT_B, ASSET_A, 1_000, 1_001, 1_000)
    );
}

#[test]
fn add_liquidity_deadline_passed() {
    let mut dex = new_test_dex();
    assert_eq!(
        dex.add_liquidity(ACCOUNT_A, ASSET_A, 1_000, 1_000, 1_000, 0),
        Err(Error::DeadlinePassed)
    );
}

#[test]
fn add_liquidity_zero_currency() {
    let mut dex = new_test_dex();
    assert_eq!(
        dex.add_liquidity(ACCOUNT_A, ASSET_A, 0, 1_000, 1_000, 1),
        Err(Error::CurrencyAmountIsZero)
    );
}

#[test]
fn add_liquidity_zero_tokens() {
    let mut dex = new_test_dex();
    assert_eq!(
        dex.add_liquidity(ACCOUNT_A, ASSET_A, 1_000, 1_000, 0, 1),
        Err(Error::MaxTokensIsZero)
    );
}

#[test]
fn add_liquidity_balance_too_low() {
    let mut dex = new_test_dex();
    assert_eq!(
        dex.add_liquidity(ACCOUNT_A, ASSET_A, INIT_BALANCE + 1, 1_000, 1_000, 1),
        Err(Error::BalanceTooLow)
    );
}

#[test]
fn add_liquidity_asset_not_found() {
    let mut dex = new_test_dex();
    assert_eq!(
        dex.add_liquidity(ACCOUNT_A, 2137, 1_000, 1_000, 1_000, 1),
        Err(Error::AssetNotFound)
    );
}

#[test]
fn add_liquidity_not_enough_tokens() {
    let mut dex = new_test_dex();
    assert_eq!(
        dex.add_liquidity(ACCOUNT_A, ASSET_A, 1_000, 1_000, INIT_BALANCE + 1, 1),
        Err(Error::NotEnoughTokens)
    );
}

#[test]
fn add_liquidity_exchange_not_found() {
    let mut dex = new_test_dex();
    assert_eq!(
        dex.add_liquidity(ACCOUNT_A, ASSET_B, 1_000, 1_000, 1_000, 1),
        Err(Error::ExchangeNotFound)
    );
}

#[test]
fn add_liquidity_zero_min_liquidity() {
    let mut dex = new_test_dex();
    assert_eq!(
        dex.add_liquidity(ACCOUNT_B, ASSET_A, 1_000, 0, 1_001, 1),
        Err(Error::MinLiquidityIsZero)
    );
}

#[test]
fn add_liquidity_max_tokens_too_low() {
    let mut dex = new_test_dex();
    assert_eq!(
        dex.add_liquidity(ACCOUNT_B, ASSET_A, 1_000, 1_000, 10, 1),
        Err(Error::MaxTokensTooLow)
    );
}

#[test]
fn add_liquidity_min_liquidity_too_high() {
    let mut dex = new_test_dex();
    assert_eq!(
        dex.add_liquidity(ACCOUNT_B, ASSET_A, 1_000, 10_000, 1_001, 1),
        Err(Error::MinLiquidityTooHigh)
    );
}
