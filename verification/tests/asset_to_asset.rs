use dex::{Dex, Error, Event, GenesisConfig, TradeAmount};

const ACCOUNT_A: u64 = 0;
const ACCOUNT_B: u64 = 1;
const ACCOUNT_C: u64 = 2;
const PALLET_ACCOUNT: u64 = 9_999;
const INIT_BALANCE: u128 = 1_000_000_000_000_000;
const INIT_LIQUIDITY: u128 = 1_000_000_000_000;
const ASSET_A: u32 = 100;
const ASSET_B: u32 = 101;
const LIQ_TOKEN_A: u32 = 200;
const LIQ_TOKEN_B: u32 = 201;

fn new_test_dex() -> Dex {
    let mut dex = Dex::new(PALLET_ACCOUNT, 3, 1000, 1);
    for account in [ACCOUNT_A, ACCOUNT_B, ACCOUNT_C] {
        dex.set_free_balance(account, INIT_BALANCE);
    }
    dex.create_asset(ASSET_A).unwrap();
    dex.create_asset(ASSET_B).unwrap();
    for account in [ACCOUNT_A, ACCOUNT_B, ACCOUNT_C] {
        dex.mint_into(ASSET_A, account, INIT_BALANCE).unwrap();
        dex.mint_into(ASSET_B, account, INIT_BALANCE).unwrap();
    }
    let genesis = GenesisConfig {
        exchanges: vec![(ACCOUNT_A, ASSET_A, LIQ_TOKEN_A, INIT_LIQUIDITY, INIT_LIQUIDITY)],
    };
    genesis.build(&mut dex);
    dex.set_block_number(1);
    dex
}


fn with_second_exchange() -> Dex {
    let mut dex = new_test_dex();
    dex.create_exchange(ACCOUNT_A, ASSET_B, LIQ_TOKEN_B, INIT_LIQUIDITY, INIT_LIQUIDITY)
        .unwrap();
    dex
}

#[test]
fn asset_to_asset_fixed_input() {
    let mut dex = with_second_exchange();

    let sold_token_amount = 500;
    let curr_amount = 498; // sold token amount (500) less the 0.3% provider fee
    let bought_token_amount = 496; // currency amount (498) less the 0.3% provider fee

    dex.asset_to_asset(
        ACCOUNT_B,
        ASSET_A,
        ASSET_B,
        TradeAmount::FixedInput { input_amount: sold_token_amount, min_output: bought_token_amount },
        1,
        None,
    )
    .unwrap();

    let exchange_a = dex.exchanges(ASSET_A).unwrap();
    assert_eq!(exchange_a.token_reserve, INIT_LIQUIDITY + sold_token_amount);
    assert_eq!(exchange_a.currency_reserve, INIT_LIQUIDITY - curr_amount);

    let exchange_b = dex.exchanges(ASSET_B).unwrap();
    assert_eq!(exchange_b.token_reserve, INIT_LIQUIDITY - bought_token_amount);
    assert_eq!(exchange_b.currency_reserve, INIT_LIQUIDITY + curr_amount);

    assert_eq!(dex.maybe_balance(ASSET_A, ACCOUNT_B), Some(INIT_BALANCE - sold_token_amount));
    assert_eq!(dex.maybe_balance(ASSET_B, ACCOUNT_B), Some(INIT_BALANCE + bought_token_amount));

    assert_eq!(dex.free_balance(PALLET_ACCOUNT), INIT_LIQUIDITY + INIT_LIQUIDITY);
    assert_eq!(dex.maybe_balance(ASSET_A, PALLET_ACCOUNT), Some(INIT_LIQUIDITY + sold_token_amount));
    assert_eq!(
        dex.maybe_balance(ASSET_B, PALLET_ACCOUNT),
        Some(INIT_LIQUIDITY - bought_token_amount)
    );

    let events = dex.events();
    assert_eq!(
        events[events.len() - 2],
        Event::AssetTradedForCurrency(
            ASSET_A,
            ACCOUNT_B,
            PALLET_ACCOUNT,
            curr_amount,
            sold_token_amount
        )
    );
    assert_eq!(
        events[events.len() - 1],
        Event::CurrencyTradedForAsset(
            ASSET_B,
            PALLET_ACCOUNT,
            ACCOUNT_B,
            curr_amount,
            bought_token_amount
        )
    );
}

#[test]
fn asset_to_asset_deadline_passed() {
    let mut dex = new_test_dex();
    assert_eq!(
        dex.asset_to_asset(
            ACCOUNT_B,
            ASSET_A,
            ASSET_B,
            TradeAmount::FixedInput { input_amount: 1, min_output: 1 },
            0,
            None
        ),
        Err(Error::DeadlinePassed)
    );
}

#[test]
fn asset_to_asset_sold_token_amount_zero() {
    let mut dex = new_test_dex();
    assert_eq!(
        dex.asset_to_asset(
            ACCOUNT_B,
            ASSET_A,
            ASSET_B,
            TradeAmount::FixedInput { input_amount: 0, min_output: 1 },
            1,
            None
        ),
        Err(Error::TradeAmountIsZero)
    );
}

#[test]
fn asset_to_asset_min_bought_tokens_zero() {
    let mut dex = new_test_dex();
    assert_eq!(
        dex.asset_to_asset(
            ACCOUNT_B,
            ASSET_A,
            ASSET_B,
            TradeAmount::FixedInput { input_amount: 1, min_output: 0 },
            1,
            None
        ),
        Err(Error::TradeAmountIsZero)
    );
}

#[test]
fn asset_to_asset_max_sold_tokens_amount_zero() {
    let mut dex = new_test_dex();
    assert_eq!(
        dex.asset_to_asset(
            ACCOUNT_B,
            ASSET_A,
            ASSET_B,
            TradeAmount::FixedOutput { output_amount: 1, max_input: 0 },
            1,
            None
        ),
        Err(Error::TradeAmountIsZero)
    );
}

#[test]
fn asset_to_asset_output_bought_token_amount_zero() {
    let mut dex = new_test_dex();
    assert_eq!(
        dex.asset_to_asset(
            ACCOUNT_B,
            ASSET_A,
            ASSET_B,
            TradeAmount::FixedOutput { output_amount: 0, max_input: 1 },
            1,
            None
        ),
        Err(Error::TradeAmountIsZero)
    );
}

#[test]
fn asset_to_asset_not_enough_tokens() {
    let mut dex = with_second_exchange();
    dex.burn_from(ASSET_A, ACCOUNT_B, INIT_BALANCE).unwrap();
    assert_eq!(
        dex.asset_to_asset(
            ACCOUNT_B,
            ASSET_A,
            ASSET_B,
            TradeAmount::FixedInput { input_amount: 500, min_output: 496 },
            1,
            None
        ),
        Err(Error::NotEnoughTokens)
    );
}

#[test]
fn asset_to_asset_sold_asset_exchange_not_found() {
    let mut dex = new_test_dex();
    assert_eq!(
        dex.asset_to_asset(
            ACCOUNT_B,
            ASSET_B,
            ASSET_A,
            TradeAmount::FixedInput { input_amount: 1, min_output: 1 },
            1,
            None
        ),
        Err(Error::ExchangeNotFound)
    );
}

#[test]
fn asset_to_asset_bought_asset_exchange_not_found() {
    let mut dex = new_test_dex();
    assert_eq!(
        dex.asset_to_asset(
            ACCOUNT_B,
            ASSET_A,
            ASSET_B,
            TradeAmount::FixedInput { input_amount: 1, min_output: 1 },
            1,
            None
        ),
        Err(Error::ExchangeNotFound)
    );
}

#[test]
fn asset_to_asset_min_bought_tokens_too_high() {
    let mut dex = with_second_exchange();
    assert_eq!(
        dex.asset_to_asset(
            ACCOUNT_B,
            ASSET_A,
            ASSET_B,
            TradeAmount::FixedInput { input_amount: 10, min_output: 50 },
            1,
            None
        ),
        Err(Error::MinBoughtTokensTooHigh)
    );
}

#[test]
fn asset_to_asset_max_sold_tokens_too_low() {
    let mut dex = with_second_exchange();
    assert_eq!(
        dex.asset_to_asset(
            ACCOUNT_B,
            ASSET_A,
            ASSET_B,
            TradeAmount::FixedOutput { output_amount: 50, max_input: 10 },
            1,
            None
        ),
        Err(Error::MaxSoldTokensTooLow)
    );
}

#[test]
fn asset_to_asset_not_enough_liquidity() {
    let mut dex = with_second_exchange();
    assert_eq!(
        dex.asset_to_asset(
            ACCOUNT_B,
            ASSET_A,
            ASSET_B,
            TradeAmount::FixedOutput {
                output_amount: INIT_LIQUIDITY + 1000,
                max_input: INIT_LIQUIDITY + 1000
            },
            1,
            None
        ),
        Err(Error::NotEnoughLiquidity)
    );
}

#[test]
fn asset_to_asset_transfer() {
    let mut dex = with_second_exchange();

    let sold_token_amount = 500;
    let curr_amount = 498; // sold token amount (500) less the 0.3% provider fee
    let bought_token_amount = 496; // currency amount (498) less the 0.3% provider fee

    dex.asset_to_asset(
        ACCOUNT_B,
        ASSET_A,
        ASSET_B,
        TradeAmount::FixedInput { input_amount: sold_token_amount, min_output: bought_token_amount },
        1,
        Some(ACCOUNT_C),
    )
    .unwrap();

    assert_eq!(dex.maybe_balance(ASSET_A, ACCOUNT_B), Some(INIT_BALANCE - sold_token_amount));
    assert_eq!(dex.maybe_balance(ASSET_B, ACCOUNT_C), Some(INIT_BALANCE + bought_token_amount));

    let events = dex.events();
    assert_eq!(
        events[events.len() - 2],
        Event::AssetTradedForCurrency(
            ASSET_A,
            ACCOUNT_B,
            PALLET_ACCOUNT,
            curr_amount,
            sold_token_amount
        )
    );
    assert_eq!(
        events[events.len() - 1],
        Event::CurrencyTradedForAsset(
            ASSET_B,
            PALLET_ACCOUNT,
            ACCOUNT_C,
            curr_amount,
            bought_token_amount
        )
    );
}

#[test]
fn asset_to_asset_fixed_output() {
    let mut dex = with_second_exchange();

    let sold_token_amount = 500;
    let curr_amount = 498; // sold token amount (500) less the 0.3% provider fee
    let bought_token_amount = 496; // currency amount (498) less the 0.3% provider fee

    dex.asset_to_asset(
        ACCOUNT_B,
        ASSET_A,
        ASSET_B,
        TradeAmount::FixedOutput { output_amount: bought_token_amount, max_input: sold_token_amount },
        1,
        None,
    )
    .unwrap();

    let exchange_a = dex.exchanges(ASSET_A).unwrap();
    assert_eq!(exchange_a.token_reserve, INIT_LIQUIDITY + sold_token_amount);
    assert_eq!(exchange_a.currency_reserve, INIT_LIQUIDITY - curr_amount);

    let exchange_b = dex.exchanges(ASSET_B).unwrap();
    assert_eq!(exchange_b.token_reserve, INIT_LIQUIDITY - bought_token_amount);
    assert_eq!(exchange_b.currency_reserve, INIT_LIQUIDITY + curr_amount);

    assert_eq!(dex.maybe_balance(ASSET_A, ACCOUNT_B), Some(INIT_BALANCE - sold_token_amount));
    assert_eq!(dex.maybe_balance(ASSET_B, ACCOUNT_B), Some(INIT_BALANCE + bought_token_amount));

    assert_eq!(dex.free_balance(PALLET_ACCOUNT), INIT_LIQUIDITY + INIT_LIQUIDITY);
    assert_eq!(dex.maybe_balance(ASSET_A, PALLET_ACCOUNT), Some(INIT_LIQUIDITY + sold_token_amount));
    assert_eq!(
        dex.maybe_balance(ASSET_B, PALLET_ACCOUNT),
        Some(INIT_LIQUIDITY - bought_token_amount)
    );

    let events = dex.events();
    assert_eq!(
        events[events.len() - 2],
        Event::AssetTradedForCurrency(
            ASSET_A,
            ACCOUNT_B,
            PALLET_ACCOUNT,
            curr_amount,
            sold_token_amount
        )
    );
    assert_eq!(
        events[events.len() - 1],
        Event::CurrencyTradedForAsset(
            ASSET_B,
            PALLET_ACCOUNT,
            ACCOUNT_B,
            curr_amount,
            bought_token_amount
        )
    );
}

#[test]
fn trade_assets_back_and_forth() {
    let mut dex = with_second_exchange();

    let sold_token_amount = 500;
    let bought_token_amount = 496; // two 0.3% fees off the sold amount

    // Trade back and forth A -> B -> A
    dex.asset_to_asset(
        ACCOUNT_B,
        ASSET_A,
        ASSET_B,
        TradeAmount::FixedOutput { output_amount: bought_token_amount, max_input: sold_token_amount },
        1,
        None,
    )
    .unwrap();
    dex.asset_to_asset(
        ACCOUNT_B,
        ASSET_B,
        ASSET_A,
        TradeAmount::FixedOutput { output_amount: bought_token_amount, max_input: sold_token_amount },
        1,
        None,
    )
    .unwrap();

    // Remove all liquidity
    dex.remove_liquidity(
        ACCOUNT_A,
        ASSET_A,
        INIT_LIQUIDITY,
        INIT_LIQUIDITY,
        INIT_LIQUIDITY + 4,
        1,
    )
    .unwrap();
    dex.remove_liquidity(
        ACCOUNT_A,
        ASSET_B,
        INIT_LIQUIDITY,
        INIT_LIQUIDITY,
        INIT_LIQUIDITY + 4,
        1,
    )
    .unwrap();

    // Account A ends up with 4 extra of both tokens, paid by account B as fees.
    assert_eq!(dex.free_balance(ACCOUNT_A), INIT_BALANCE);
    assert_eq!(dex.maybe_balance(ASSET_A, ACCOUNT_A), Some(INIT_BALANCE + 4));
    assert_eq!(dex.maybe_balance(ASSET_B, ACCOUNT_A), Some(INIT_BALANCE + 4));
    assert_eq!(dex.maybe_balance(ASSET_A, ACCOUNT_B), Some(INIT_BALANCE - 4));
    assert_eq!(dex.maybe_balance(ASSET_B, ACCOUNT_B), Some(INIT_BALANCE - 4));
}
