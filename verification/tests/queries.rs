use dex::{Dex, GenesisConfig, RpcError};

const ACCOUNT_A: u64 = 0;
const ACCOUNT_B: u64 = 1;
const ACCOUNT_C: u64 = 2;
const PALLET_ACCOUNT: u64 = 9_999;
const INIT_BALANCE: u128 = 1_000_000_000_000_000;
const INIT_LIQUIDITY: u128 = 1_000_000_000_000;
const ASSET_A: u32 = 100;
const ASSET_B: u32 = 101;
const LIQ_TOKEN_A: u32 = 200;
const LIQ_TOKEN_B: u32 = 201;

fn new_test_dex() -> Dex {
    let mut dex = Dex::new(PALLET_ACCOUNT, 3, 1000, 1);
    for account in [ACCOUNT_A, ACCOUNT_B, ACCOUNT_C] {
        dex.set_free_balance(account, INIT_BALANCE);
    }
    dex.create_asset(ASSET_A).unwrap();
    dex.create_asset(ASSET_B).unwrap();
    for account in [ACCOUNT_A, ACCOUNT_B, ACCOUNT_C] {
        dex.mint_into(ASSET_A, account, INIT_BALANCE).unwrap();
        dex.mint_into(ASSET_B, account, INIT_BALANCE).unwrap();
    }
    let genesis = GenesisConfig {
        exchanges: vec![(ACCOUNT_A, ASSET_A, LIQ_TOKEN_A, INIT_LIQUIDITY, INIT_LIQUIDITY)],
    };
    genesis.build(&mut dex);
    dex.set_block_number(1);
    dex
}


fn max_reserve_dex() -> Dex {
    let mut dex = Dex::new(PALLET_ACCOUNT, 3, 1000, 1);
    dex.set_free_balance(ACCOUNT_A, u128::MAX);
    dex.create_asset(ASSET_A).unwrap();
    dex.mint_into(ASSET_A, ACCOUNT_A, u128::MAX).unwrap();
    let genesis = GenesisConfig {
        exchanges: vec![(ACCOUNT_A, ASSET_A, LIQ_TOKEN_A, u128::MAX, u128::MAX)],
    };
    genesis.build(&mut dex);
    dex.set_block_number(1);
    dex
}

#[test]
fn get_currency_to_asset_output_amount_exchange_not_found() {
    let dex = new_test_dex();
    assert_eq!(
        dex.get_currency_to_asset_output_amount(u32::MAX, 0),
        Err(RpcError::ExchangeNotFound)
    );
}

#[test]
fn get_currency_to_asset_output_amount_overflow() {
    let dex = new_test_dex();
    assert_eq!(
        dex.get_currency_to_asset_output_amount(ASSET_A, u128::MAX),
        Err(RpcError::Overflow)
    );
}

#[test]
fn get_currency_to_asset_output_amount() {
    let dex = new_test_dex();
    assert_eq!(dex.get_currency_to_asset_output_amount(ASSET_A, 1_000_000), Ok(996_999));
}

#[test]
fn get_currency_to_asset_input_amount_exchange_not_found() {
    let dex = new_test_dex();
    assert_eq!(
        dex.get_currency_to_asset_input_amount(u32::MAX, 0),
        Err(RpcError::ExchangeNotFound)
    );
}

#[test]
fn get_currency_to_asset_input_amount_not_enough_liquidity() {
    let dex = new_test_dex();
    assert_eq!(
        dex.get_currency_to_asset_input_amount(ASSET_A, u128::MAX),
        Err(RpcError::NotEnoughLiquidity)
    );
}

#[test]
fn get_currency_to_asset_input_amount_overflow() {
    let dex = max_reserve_dex();
    assert_eq!(dex.get_currency_to_asset_input_amount(ASSET_A, 1), Err(RpcError::Overflow));
}

#[test]
fn get_currency_to_asset_input_amount() {
    let dex = new_test_dex();
    assert_eq!(dex.get_currency_to_asset_input_amount(ASSET_A, 1_000_000), Ok(1_003_011));
}

#[test]
fn get_asset_to_currency_output_amount_exchange_not_found() {
    let dex = new_test_dex();
    assert_eq!(
        dex.get_asset_to_currency_output_amount(u32::MAX, 0),
        Err(RpcError::ExchangeNotFound)
    );
}

#[test]
fn get_asset_to_currency_output_amount_overflow() {
    let dex = new_test_dex();
    assert_eq!(
        dex.get_asset_to_currency_output_amount(ASSET_A, u128::MAX),
        Err(RpcError::Overflow)
    );
}

#[test]
fn get_asset_to_currency_output_amount() {
    let dex = new_test_dex();
    assert_eq!(dex.get_asset_to_currency_output_amount(ASSET_A, 1_000_000), Ok(996_999));
}

#[test]
fn get_asset_to_currency_input_amount_exchange_not_found() {
    let dex = new_test_dex();
    assert_eq!(
        dex.get_asset_to_currency_input_amount(u32::MAX, 0),
        Err(RpcError::ExchangeNotFound)
    );
}

#[test]
fn get_asset_to_currency_input_amount_not_enough_liquidity() {
    let dex = new_test_dex();
    assert_eq!(
        dex.get_asset_to_currency_input_amount(ASSET_A, u128::MAX),
        Err(RpcError::NotEnoughLiquidity)
    );
}

#[test]
fn get_asset_to_currency_input_amount_overflow() {
    let dex = max_reserve_dex();
    assert_eq!(
        dex.get_asset_to_currency_input_amount(ASSET_A, INIT_LIQUIDITY - 1),
        Err(RpcError::Overflow)
    );
}

#[test]
fn get_asset_to_currency_input_amount() {
    let dex = new_test_dex();
    assert_eq!(dex.get_asset_to_currency_input_amount(ASSET_A, 1_000_000), Ok(1_003_011));
}
