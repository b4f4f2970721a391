use dex::{Dex, Error, Event, GenesisConfig, TradeAmount};

const ACCOUNT_A: u64 = 0;
const ACCOUNT_B: u64 = 1;
const ACCOUNT_C: u64 = 2;
const PALLET_ACCOUNT: u64 = 9_999;
const INIT_BALANCE: u128 = 1_000_000_000_000_000;
const INIT_LIQUIDITY: u128 = 1_000_000_000_000;
const ASSET_A: u32 = 100;
const ASSET_B: u32 = 101;
const LIQ_TOKEN_A: u32 = 200;
const LIQ_TOKEN_B: u32 = 201;

fn new_test_dex() -> Dex {
    let mut dex = Dex::new(PALLET_ACCOUNT, 3, 1000, 1);
    for account in [ACCOUNT_A, ACCOUNT_B, ACCOUNT_C] {
        dex.set_free_balance(account, INIT_BALANCE);
    }
    dex.create_asset(ASSET_A).unwrap();
    dex.create_asset(ASSET_B).unwrap();
    for account in [ACCOUNT_A, ACCOUNT_B, ACCOUNT_C] {
        dex.mint_into(ASSET_A, account, INIT_BALANCE).unwrap();
        dex.mint_into(ASSET_B, account, INIT_BALANCE).unwrap();
    }
    let genesis = GenesisConfig {
        exchanges: vec![(ACCOUNT_A, ASSET_A, LIQ_TOKEN_A, INIT_LIQUIDITY, INIT_LIQUIDITY)],
    };
    genesis.build(&mut dex);
    dex.set_block_number(1);
    dex
}


#[test]
fn currency_to_asset_fixed_input() {
    let mut dex = new_test_dex();
    let curr_amount = 500;
    let token_amount = 498; // currency amount (500) less the 0.3% provider fee

    dex.currency_to_asset(
        ACCOUNT_B,
        ASSET_A,
        TradeAmount::FixedInput { input_amount: curr_amount, min_output: token_amount },
        1,
        None,
    )
    .unwrap();

    let exchange = dex.exchanges(ASSET_A).unwrap();
    assert_eq!(exchange.currency_reserve, INIT_LIQUIDITY + curr_amount);
    assert_eq!(exchange.token_reserve, INIT_LIQUIDITY - token_amount);
    assert_eq!(dex.free_balance(ACCOUNT_B), INIT_BALANCE - curr_amount);
    assert_eq!(dex.maybe_balance(ASSET_A, ACCOUNT_B), Some(INIT_BALANCE + token_amount));
    assert_eq!(dex.free_balance(PALLET_ACCOUNT), INIT_LIQUIDITY + curr_amount);
    assert_eq!(dex.maybe_balance(ASSET_A, PALLET_ACCOUNT), Some(INIT_LIQUIDITY - token_amount));
    let events = dex.events();
    assert_eq!(
        events[events.len() - 1],
        Event::CurrencyTradedForAsset(ASSET_A, ACCOUNT_B, ACCOUNT_B, curr_amount, token_amount)
    );
}

#[test]
fn currency_to_asset_fixed_output() {
    let mut dex = new_test_dex();
    let curr_amount = 500;
    let token_amount = 498; // currency amount (500) less the 0.3% provider fee

    dex.currency_to_asset(
        ACCOUNT_B,
        ASSET_A,
        TradeAmount::FixedOutput { max_input: curr_amount, output_amount: token_amount },
        1,
        None,
    )
    .unwrap();

    let exchange = dex.exchanges(ASSET_A).unwrap();
    assert_eq!(exchange.currency_reserve, INIT_LIQUIDITY + curr_amount);
    assert_eq!(exchange.token_reserve, INIT_LIQUIDITY - token_amount);
    assert_eq!(dex.free_balance(ACCOUNT_B), INIT_BALANCE - curr_amount);
    assert_eq!(dex.maybe_balance(ASSET_A, ACCOUNT_B), Some(INIT_BALANCE + token_amount));
    assert_eq!(dex.free_balance(PALLET_ACCOUNT), INIT_LIQUIDITY + curr_amount);
    assert_eq!(dex.maybe_balance(ASSET_A, PALLET_ACCOUNT), Some(INIT_LIQUIDITY - token_amount));
    let events = dex.events();
    assert_eq!(
        events[events.len() - 1],
        Event::CurrencyTradedForAsset(ASSET_A, ACCOUNT_B, ACCOUNT_B, curr_amount, token_amount)
    );
}

#[test]
fn currency_to_asset_deadline_passed() {
    let mut dex = new_test_dex();
    assert_eq!(
        dex.currency_to_asset(
            ACCOUNT_B,
            ASSET_A,
            TradeAmount::FixedInput { input_amount: 1, min_output: 1 },
            0,
            None
        ),
        Err(Error::DeadlinePassed)
    );
}

#[test]
fn currency_to_asset_currency_amount_zero() {
    let mut dex = new_test_dex();
    assert_eq!(
        dex.currency_to_asset(
            ACCOUNT_B,
            ASSET_A,
            TradeAmount::FixedInput { input_amount: 0, min_output: 100 },
            1,
            None
        ),
        Err(Error::TradeAmountIsZero)
    );
}

#[test]
fn currency_to_asset_min_tokens_zero() {
    let mut dex = new_test_dex();
    assert_eq!(
        dex.currency_to_asset(
            ACCOUNT_B,
            ASSET_A,
            TradeAmount::FixedInput { input_amount: 100, min_output: 0 },
            1,
            None
        ),
        Err(Error::TradeAmountIsZero)
    );
}

#[test]
fn currency_to_asset_max_currency_zero() {
    let mut dex = new_test_dex();
    assert_eq!(
        dex.currency_to_asset(
            ACCOUNT_B,
            ASSET_A,
            TradeAmount::FixedOutput { max_input: 0, output_amount: 100 },
            1,
            None
        ),
        Err(Error::TradeAmountIsZero)
    );
}

#[test]
fn currency_to_asset_token_amount_zero() {
    let mut dex = new_test_dex();
    assert_eq!(
        dex.currency_to_asset(
            ACCOUNT_B,
            ASSET_A,
            TradeAmount::FixedOutput { max_input: 100, output_amount: 0 },
            1,
            None
        ),
        Err(Error::TradeAmountIsZero)
    );
}

#[test]
fn currency_to_asset_balance_too_low() {
    let mut dex = new_test_dex();
    dex.set_free_balance(ACCOUNT_B, 1);
    assert_eq!(
        dex.currency_to_asset(
            ACCOUNT_B,
            ASSET_A,
            TradeAmount::FixedInput { input_amount: 500, min_output: 498 },
            1,
            None
        ),
        Err(Error::BalanceTooLow)
    );
}

#[test]
fn currency_to_asset_exchange_not_found() {
    let mut dex = new_test_dex();
    assert_eq!(
        dex.currency_to_asset(
            ACCOUNT_B,
            ASSET_B,
            TradeAmount::FixedInput { input_amount: 1, min_output: 1 },
            1,
            None
        ),
        Err(Error::ExchangeNotFound)
    );
}

#[test]
fn currency_to_asset_min_tokens_too_high() {
    let mut dex = new_test_dex();
    assert_eq!(
        dex.currency_to_asset(
            ACCOUNT_B,
            ASSET_A,
            TradeAmount::FixedInput { input_amount: 10, min_output: 50 },
            1,
            None
        ),
        Err(Error::MinTokensTooHigh)
    );
}

#[test]
fn currency_to_asset_max_currency_too_low() {
    let mut dex = new_test_dex();
    assert_eq!(
        dex.currency_to_asset(
            ACCOUNT_B,
            ASSET_A,
            TradeAmount::FixedOutput { max_input: 10, output_amount: 50 },
            1,
            None
        ),
        Err(Error::MaxCurrencyTooLow)
    );
}

#[test]
fn currency_to_asset_not_enough_liquidity() {
    let mut dex = new_test_dex();
    assert_eq!(
        dex.currency_to_asset(
            ACCOUNT_B,
            ASSET_A,
            TradeAmount::FixedOutput {
                max_input: INIT_LIQUIDITY + 1000,
                output_amount: INIT_LIQUIDITY + 1000
            },
            1,
            None
        ),
        Err(Error::NotEnoughLiquidity)
    );
}

#[test]
fn currency_to_asset_transfer() {
    let mut dex = new_test_dex();
    let curr_amount = 500;
    let token_amount = 498; // currency amount (500) less the 0.3% provider fee

    dex.currency_to_asset(
        ACCOUNT_B,
        ASSET_A,
        TradeAmount::FixedInput { input_amount: curr_amount, min_output: token_amount },
        1,
        Some(ACCOUNT_C),
    )
    .unwrap();

    assert_eq!(dex.free_balance(ACCOUNT_B), INIT_BALANCE - curr_amount);
    assert_eq!(dex.maybe_balance(ASSET_A, ACCOUNT_B), Some(INIT_BALANCE));
    assert_eq!(dex.maybe_balance(ASSET_A, ACCOUNT_C), Some(INIT_BALANCE + token_amount));
    let events = dex.events();
    assert_eq!(
        events[events.len() - 1],
        Event::CurrencyTradedForAsset(ASSET_A, ACCOUNT_B, ACCOUNT_C, curr_amount, token_amount)
    );
}
