use dex::{Dex, Error, Event, GenesisConfig, TradeAmount};

const ACCOUNT_A: u64 = 0;
const ACCOUNT_B: u64 = 1;
const ACCOUNT_C: u64 = 2;
const PALLET_ACCOUNT: u64 = 9_999;
const INIT_BALANCE: u128 = 1_000_000_000_000_000;
const INIT_LIQUIDITY: u128 = 1_000_000_000_000;
const ASSET_A: u32 = 100;
const ASSET_B: u32 = 101;
const LIQ_TOKEN_A: u32 = 200;
const LIQ_TOKEN_B: u32 = 201;

fn new_test_dex() -> Dex {
    let mut dex = Dex::new(PALLET_ACCOUNT, 3, 1000, 1);
    for account in [ACCOUNT_A, ACCOUNT_B, ACCOUNT_C] {
        dex.set_free_balance(account, INIT_BALANCE);
    }
    dex.create_asset(ASSET_A).unwrap();
    dex.create_asset(ASSET_B).unwrap();
    for account in [ACCOUNT_A, ACCOUNT_B, ACCOUNT_C] {
        dex.mint_into(ASSET_A, account, INIT_BALANCE).unwrap();
        dex.mint_into(ASSET_B, account, INIT_BALANCE).unwrap();
    }
    let genesis = GenesisConfig {
        exchanges: vec![(ACCOUNT_A, ASSET_A, LIQ_TOKEN_A, INIT_LIQUIDITY, INIT_LIQUIDITY)],
    };
    genesis.build(&mut dex);
    dex.set_block_number(1);
    dex
}

#[test]
fn create_exchange() {
    let mut dex = new_test_dex();
    dex.create_exchange(ACCOUNT_A, ASSET_B, LIQ_TOKEN_B, 1, 1).unwrap();
    let exchange = dex.exchanges(ASSET_B).unwrap();
    assert_eq!(exchange.asset_id, ASSET_B);
    assert_eq!(exchange.currency_reserve, 1);
    assert_eq!(exchange.token_reserve, 1);
    assert_eq!(dex.total_issuance(exchange.liquidity_token_id), 1);
    let events = dex.events();
    assert!(matches!(events[events.len() - 1], Event::ExchangeCreated(asset, _) if asset == ASSET_B));
}

#[test]
fn create_exchange_currency_amount_too_low() {
    let mut dex = new_test_dex();
    assert_eq!(
        dex.create_exchange(ACCOUNT_A, ASSET_A, LIQ_TOKEN_A, 0, 1),
        Err(Error::CurrencyAmountTooLow)
    );
}

#[test]
fn create_exchange_token_amount_zero() {
    let mut dex = new_test_dex();
    assert_eq!(
        dex.create_exchange(ACCOUNT_A, ASSET_A, LIQ_TOKEN_A, 1, 0),
        Err(Error::TokenAmountIsZero)
    );
}

#[test]
fn create_exchange_asset_not_found() {
    let mut dex = new_test_dex();
    assert_eq!(
        dex.create_exchange(ACCOUNT_A, 2137, LIQ_TOKEN_A, 1, 1),
        Err(Error::AssetNotFound)
    );
}

#[test]
fn create_exchange_already_exists() {
    let mut dex = new_test_dex();
    assert_eq!(
        dex.create_exchange(ACCOUNT_A, ASSET_A, LIQ_TOKEN_A, 1, 1),
        Err(Error::ExchangeAlreadyExists)
    );
}

#[test]
fn create_exchange_token_id_taken() {
    let mut dex = new_test_dex();
    assert_eq!(
        dex.create_exchange(ACCOUNT_A, ASSET_B, LIQ_TOKEN_A, 1, 1),
        Err(Error::TokenIdTaken)
    );
}
