use dex::{Dex, Error, Event, GenesisConfig, RpcError, TradeAmount};

const ACCOUNT_A: u64 = 0;
const ACCOUNT_B: u64 = 1;
const ACCOUNT_C: u64 = 2;
const PALLET_ACCOUNT: u64 = 9_999;
const INIT_BALANCE: u128 = 1_000_000_000_000_000;
const INIT_LIQUIDITY: u128 = 1_000_000_000_000;
const ASSET_A: u32 = 100;
const ASSET_B: u32 = 101;
const LIQ_TOKEN_A: u32 = 200;
const LIQ_TOKEN_B: u32 = 201;

fn new_test_dex() -> Dex {
    let mut dex = Dex::new(PALLET_ACCOUNT, 3, 1000, 1);
    for account in [ACCOUNT_A, ACCOUNT_B, ACCOUNT_C] {
        dex.set_free_balance(account, INIT_BALANCE);
    }
    dex.create_asset(ASSET_A).unwrap();
    dex.create_asset(ASSET_B).unwrap();
    for account in [ACCOUNT_A, ACCOUNT_B, ACCOUNT_C] {
        dex.mint_into(ASSET_A, account, INIT_BALANCE).unwrap();
        dex.mint_into(ASSET_B, account, INIT_BALANCE).unwrap();
    }
    let genesis = GenesisConfig {
        exchanges: vec![(ACCOUNT_A, ASSET_A, LIQ_TOKEN_A, INIT_LIQUIDITY, INIT_LIQUIDITY)],
    };
    genesis.build(&mut dex);
    dex.set_block_number(1);
    dex
}


use dex::math::{mul_div_ceil, mul_div_floor};

fn small_pool_dex() -> Dex {
    let mut dex = Dex::new(PALLET_ACCOUNT, 3, 1000, 1);
    for account in [ACCOUNT_A, ACCOUNT_B] {
        dex.set_free_balance(account, INIT_BALANCE);
    }
    dex.create_asset(ASSET_A).unwrap();
    dex.mint_into(ASSET_A, ACCOUNT_A, INIT_BALANCE).unwrap();
    dex.mint_into(ASSET_A, ACCOUNT_B, INIT_BALANCE).unwrap();
    let genesis = GenesisConfig { exchanges: vec![(ACCOUNT_A, ASSET_A, LIQ_TOKEN_A, 1_000, 1_000)] };
    genesis.build(&mut dex);
    dex.set_block_number(1);
    dex
}

#[test]
fn add_liquidity_first_deposit() {
    // A pool whose whole share supply was burned away is re-seeded by the
    // first-deposit rule: the declared token maximum is taken as is, one
    // share is minted per currency unit, and the minimum-liquidity bound
    // is not checked at all (here it is zero).
    let mut dex = small_pool_dex();
    dex.burn_from(LIQ_TOKEN_A, ACCOUNT_A, 1_000).unwrap();
    assert_eq!(dex.total_issuance(LIQ_TOKEN_A), 0);

    dex.add_liquidity(ACCOUNT_B, ASSET_A, 1_000, 0, 1_000, 1).unwrap();
    let exchange = dex.exchanges(ASSET_A).unwrap();
    assert_eq!(exchange.currency_reserve, 2_000);
    assert_eq!(exchange.token_reserve, 2_000);
    assert_eq!(dex.maybe_balance(LIQ_TOKEN_A, ACCOUNT_B), Some(1_000));
    assert_eq!(dex.total_issuance(LIQ_TOKEN_A), 1_000);
}

#[test]
fn add_liquidity_matches_reserve_ratio() {
    // Against reserves (1_000, 1_000) with 1_000 shares outstanding, a
    // 500-currency deposit owes 501 tokens (ceiling plus one) and mints
    // exactly 500 shares (floor).
    let mut dex = small_pool_dex();
    dex.add_liquidity(ACCOUNT_B, ASSET_A, 500, 500, 1_000, 1).unwrap();
    let exchange = dex.exchanges(ASSET_A).unwrap();
    assert_eq!(exchange.currency_reserve, 1_500);
    assert_eq!(exchange.token_reserve, 1_501);
    assert_eq!(dex.maybe_balance(LIQ_TOKEN_A, ACCOUNT_B), Some(500));
}

#[test]
fn remove_liquidity_proportional_share() {
    // Burning 500 of 1_000 shares against reserves (1_000, 1_000) pays out
    // exactly half of each side.
    let mut dex = small_pool_dex();
    dex.remove_liquidity(ACCOUNT_A, ASSET_A, 500, 500, 500, 1).unwrap();
    let exchange = dex.exchanges(ASSET_A).unwrap();
    assert_eq!(exchange.currency_reserve, 500);
    assert_eq!(exchange.token_reserve, 500);
}

#[test]
fn first_deposit_round_trip() {
    // Seeding a fresh exchange with (777, 333) and then burning all 777
    // minted shares returns exactly (777, 333): no rounding drift.
    let mut dex = new_test_dex();
    dex.create_exchange(ACCOUNT_B, ASSET_B, LIQ_TOKEN_B, 777, 333).unwrap();
    assert_eq!(dex.maybe_balance(LIQ_TOKEN_B, ACCOUNT_B), Some(777));

    dex.remove_liquidity(ACCOUNT_B, ASSET_B, 777, 777, 333, 1).unwrap();
    let exchange = dex.exchanges(ASSET_B).unwrap();
    assert_eq!(exchange.currency_reserve, 0);
    assert_eq!(exchange.token_reserve, 0);
    assert_eq!(dex.free_balance(ACCOUNT_B), INIT_BALANCE);
    assert_eq!(dex.maybe_balance(ASSET_B, ACCOUNT_B), Some(INIT_BALANCE));
    assert_eq!(dex.total_issuance(LIQ_TOKEN_B), 0);
}

#[test]
fn swap_product_never_decreases() {
    // The invariant product grows across swaps, because the fee stays in
    // the pool.
    let mut dex = new_test_dex();
    let before = dex.exchanges(ASSET_A).unwrap();
    let product_before = before.currency_reserve * before.token_reserve;

    dex.currency_to_asset(
        ACCOUNT_B,
        ASSET_A,
        TradeAmount::FixedInput { input_amount: 500, min_output: 498 },
        1,
        None,
    )
    .unwrap();
    let mid = dex.exchanges(ASSET_A).unwrap();
    let product_mid = mid.currency_reserve * mid.token_reserve;
    assert!(product_mid >= product_before);

    dex.asset_to_currency(
        ACCOUNT_B,
        ASSET_A,
        TradeAmount::FixedOutput { output_amount: 100, max_input: 102 },
        1,
        None,
    )
    .unwrap();
    let after = dex.exchanges(ASSET_A).unwrap();
    let product_after = after.currency_reserve * after.token_reserve;
    assert!(product_after >= product_mid);
}

#[test]
fn deadline_leaves_no_trace() {
    // A stale call fails with DeadlinePassed and changes nothing at all.
    let mut dex = new_test_dex();
    let reserve_before = dex.exchanges(ASSET_A).unwrap();
    let balance_before = dex.free_balance(ACCOUNT_B);
    let events_before = dex.events().len();
    assert_eq!(
        dex.add_liquidity(ACCOUNT_B, ASSET_A, 1_000, 1_000, 1_001, 0),
        Err(Error::DeadlinePassed)
    );
    assert_eq!(dex.exchanges(ASSET_A).unwrap(), reserve_before);
    assert_eq!(dex.free_balance(ACCOUNT_B), balance_before);
    assert_eq!(dex.events().len(), events_before);
}

#[test]
fn wide_ratio_math_is_exact() {
    // The 256-bit intermediate keeps huge ratios exact, and saturates only
    // where the true quotient cannot fit.
    assert_eq!(mul_div_floor(10, 10, 3), 33);
    assert_eq!(mul_div_ceil(10, 10, 3), 34);
    assert_eq!(mul_div_floor(u128::MAX, u128::MAX, u128::MAX), u128::MAX);
    assert_eq!(mul_div_ceil(u128::MAX, u128::MAX, u128::MAX), u128::MAX);
    assert_eq!(mul_div_floor(u128::MAX, u128::MAX, 1), u128::MAX);
    assert_eq!(mul_div_floor(1 << 100, 1 << 100, 1 << 73), 1 << 127);
    assert_eq!(mul_div_ceil((1 << 100) + 1, 1 << 100, 1 << 100), (1 << 100) + 1);
    assert_eq!(mul_div_floor(1 << 100, 1 << 100, 1 << 72), u128::MAX);
}

#[test]
fn genesis_emits_no_events() {
    let dex = new_test_dex();
    assert!(dex.events().is_empty());
}

#[test]
fn rpc_error_mapping() {
    assert_eq!(RpcError::from(Error::ExchangeNotFound), RpcError::ExchangeNotFound);
    assert_eq!(RpcError::from(Error::NotEnoughLiquidity), RpcError::NotEnoughLiquidity);
    assert_eq!(RpcError::from(Error::Overflow), RpcError::Overflow);
    assert!(matches!(
        RpcError::from(Error::DeadlinePassed),
        RpcError::Unexpected(msg) if msg == "DeadlinePassed"
    ));
}
