//! The engine's standing guarantees, stated and proved once over the
//! pricing and liquidity formulas that every operation's contract is
//! written in.

use crate::liquidity::spec_share_of;
use crate::pricing::{net_input, spec_input_price, spec_output_price};
use vstd::arithmetic::div_mod::{
    lemma_div_is_ordered, lemma_div_multiples_vanish, lemma_fundamental_div_mod, lemma_mod_bound,
};
use vstd::arithmetic::mul::{lemma_mul_inequality, lemma_mul_nonnegative};
use vstd::prelude::*;

verus! {

/// A fixed-input swap never decreases the product of the reserves: paying
/// `input_amount` into `input_reserve` and taking the quoted output out of
/// `output_reserve` leaves `(input_reserve + input) * (output_reserve -
/// output)` at least `input_reserve * output_reserve`. Chained over any
/// sequence of swaps, the invariant product is non-decreasing.
pub proof fn lemma_fixed_input_swap_preserves_product(
    input_amount: int,
    input_reserve: int,
    output_reserve: int,
    fee_num: int,
    fee_den: int,
)
    requires
        0 <= fee_num < fee_den,
        input_amount >= 0,
        input_reserve >= 1,
        output_reserve >= 0,
    ensures
        (input_reserve + input_amount) * (output_reserve - spec_input_price(
            input_amount,
            input_reserve,
            output_reserve,
            fee_num,
            fee_den,
        )) >= input_reserve * output_reserve,
{
    let net = net_input(input_amount, fee_num, fee_den);
    let divisor = input_reserve * fee_den + net;
    let out = spec_input_price(input_amount, input_reserve, output_reserve, fee_num, fee_den);
    assert(net >= 0 && net <= input_amount * fee_den) by (nonlinear_arith)
        requires
            net == input_amount * (fee_den - fee_num),
            input_amount >= 0,
            0 <= fee_num < fee_den,
    ;
    assert(divisor >= fee_den) by (nonlinear_arith)
        requires
            divisor == input_reserve * fee_den + net,
            input_reserve >= 1,
            net >= 0,
            fee_den >= 1,
    ;
    lemma_mul_nonnegative(net, output_reserve);
    lemma_fundamental_div_mod(net * output_reserve, divisor);
    lemma_mod_bound(net * output_reserve, divisor);
    lemma_div_is_ordered(0, net * output_reserve, divisor);
    // out * divisor <= net * output_reserve
    assert(out * divisor <= net * output_reserve) by (nonlinear_arith)
        requires
            net * output_reserve == divisor * out + (net * output_reserve) % divisor,
            (net * output_reserve) % divisor >= 0,
    ;
    // (input_reserve + input_amount) * net <= input_amount * divisor
    assert((input_reserve + input_amount) * net <= input_amount * divisor) by (nonlinear_arith)
        requires
            divisor == input_reserve * fee_den + net,
            net <= input_amount * fee_den,
            net >= 0,
            input_reserve >= 1,
            input_amount >= 0,
    ;
    // Multiply the two chains and cancel the positive divisor.
    assert(out * (input_reserve + input_amount) <= input_amount * output_reserve)
        by (nonlinear_arith)
        requires
            out * divisor <= net * output_reserve,
            (input_reserve + input_amount) * net <= input_amount * divisor,
            divisor >= 1,
            out >= 0,
            output_reserve >= 0,
            net >= 0,
            input_reserve + input_amount >= 1,
    ;
    assert((input_reserve + input_amount) * (output_reserve - out) >= input_reserve
        * output_reserve) by (nonlinear_arith)
        requires
            out * (input_reserve + input_amount) <= input_amount * output_reserve,
    ;
}

/// A fixed-output swap never decreases the product of the reserves: paying
/// the quoted input for `output_amount` leaves `(input_reserve + input) *
/// (output_reserve - output)` at least `input_reserve * output_reserve`.
pub proof fn lemma_fixed_output_swap_preserves_product(
    output_amount: int,
    input_reserve: int,
    output_reserve: int,
    fee_num: int,
    fee_den: int,
)
    requires
        0 <= fee_num < fee_den,
        input_reserve >= 0,
        1 <= output_amount < output_reserve,
    ensures
        (input_reserve + spec_output_price(
            output_amount,
            input_reserve,
            output_reserve,
            fee_num,
            fee_den,
        )) * (output_reserve - output_amount) >= input_reserve * output_reserve,
{
    let numerator = input_reserve * output_amount * fee_den;
    let divisor = (output_reserve - output_amount) * (fee_den - fee_num);
    let inp = spec_output_price(output_amount, input_reserve, output_reserve, fee_num, fee_den);
    assert(divisor >= 1) by (nonlinear_arith)
        requires
            divisor == (output_reserve - output_amount) * (fee_den - fee_num),
            output_reserve - output_amount >= 1,
            fee_den - fee_num >= 1,
    ;
    assert(numerator >= 0) by (nonlinear_arith)
        requires
            numerator == input_reserve * output_amount * fee_den,
            input_reserve >= 0,
            output_amount >= 1,
            fee_den >= 1,
    ;
    lemma_fundamental_div_mod(numerator, divisor);
    lemma_mod_bound(numerator, divisor);
    // inp * divisor > numerator, because the formula adds one to the floor.
    assert(inp * divisor > numerator) by (nonlinear_arith)
        requires
            inp == numerator / divisor + 1,
            numerator == divisor * (numerator / divisor) + numerator % divisor,
            numerator % divisor < divisor,
            divisor >= 1,
    ;
    // input_reserve * output * fee_den >= input_reserve * output * (fee_den - fee_num)
    assert(inp * (output_reserve - output_amount) > input_reserve * output_amount)
        by (nonlinear_arith)
        requires
            inp * divisor > numerator,
            numerator == input_reserve * output_amount * fee_den,
            divisor == (output_reserve - output_amount) * (fee_den - fee_num),
            0 <= fee_num < fee_den,
            input_reserve >= 0,
            output_amount >= 1,
            output_reserve - output_amount >= 1,
    ;
    assert((input_reserve + inp) * (output_reserve - output_amount) >= input_reserve
        * output_reserve) by (nonlinear_arith)
        requires
            inp * (output_reserve - output_amount) > input_reserve * output_amount,
    ;
}

/// The fixed-input quote rounds in the pool's favour: the output times the
/// divisor never exceeds the exact numerator, so truncation loss is never
/// handed to the caller.
pub proof fn lemma_input_price_rounds_down(
    input_amount: int,
    input_reserve: int,
    output_reserve: int,
    fee_num: int,
    fee_den: int,
)
    requires
        0 <= fee_num < fee_den,
        input_amount >= 0,
        input_reserve >= 1,
        output_reserve >= 0,
    ensures
        spec_input_price(input_amount, input_reserve, output_reserve, fee_num, fee_den) * (
        input_reserve * fee_den + net_input(input_amount, fee_num, fee_den)) <= net_input(
            input_amount,
            fee_num,
            fee_den,
        ) * output_reserve,
{
    let net = net_input(input_amount, fee_num, fee_den);
    let divisor = input_reserve * fee_den + net;
    assert(net >= 0) by (nonlinear_arith)
        requires
            net == input_amount * (fee_den - fee_num),
            input_amount >= 0,
            fee_den > fee_num,
    ;
    assert(divisor >= 1) by (nonlinear_arith)
        requires
            divisor == input_reserve * fee_den + net,
            input_reserve >= 1,
            fee_den >= 1,
            net >= 0,
    ;
    lemma_fundamental_div_mod(net * output_reserve, divisor);
    lemma_mod_bound(net * output_reserve, divisor);
    assert(((net * output_reserve) / divisor) * divisor <= net * output_reserve)
        by (nonlinear_arith)
        requires
            net * output_reserve == divisor * ((net * output_reserve) / divisor) + (net
                * output_reserve) % divisor,
            (net * output_reserve) % divisor >= 0,
    ;
}

/// The fixed-output quote rounds against the caller: the input times the
/// divisor strictly exceeds the exact numerator, so the pool is never
/// under-charged by truncation.
pub proof fn lemma_output_price_rounds_up(
    output_amount: int,
    input_reserve: int,
    output_reserve: int,
    fee_num: int,
    fee_den: int,
)
    requires
        0 <= fee_num < fee_den,
        input_reserve >= 0,
        0 <= output_amount < output_reserve,
    ensures
        spec_output_price(output_amount, input_reserve, output_reserve, fee_num, fee_den) * ((
        output_reserve - output_amount) * (fee_den - fee_num)) > input_reserve * output_amount
            * fee_den,
{
    let numerator = input_reserve * output_amount * fee_den;
    let divisor = (output_reserve - output_amount) * (fee_den - fee_num);
    assert(divisor >= 1) by (nonlinear_arith)
        requires
            divisor == (output_reserve - output_amount) * (fee_den - fee_num),
            output_reserve - output_amount >= 1,
            fee_den - fee_num >= 1,
    ;
    assert(numerator >= 0) by (nonlinear_arith)
        requires
            numerator == input_reserve * output_amount * fee_den,
            input_reserve >= 0,
            output_amount >= 0,
            fee_den >= 1,
    ;
    lemma_fundamental_div_mod(numerator, divisor);
    lemma_mod_bound(numerator, divisor);
    assert((numerator / divisor + 1) * divisor > numerator) by (nonlinear_arith)
        requires
            numerator == divisor * (numerator / divisor) + numerator % divisor,
            numerator % divisor < divisor,
            divisor >= 1,
    ;
}

/// The first deposit round-trips exactly: seeding an empty exchange with
/// `(c, t)` mints `c` shares, and burning all `c` shares against reserves
/// `(c, t)` and supply `c` pays back exactly `c` currency and `t` tokens,
/// with no rounding drift.
pub proof fn lemma_first_deposit_round_trip(c: u128, t: u128)
    requires
        c >= 1,
        t >= 1,
    ensures
        spec_share_of(c, c, c) == c,
        spec_share_of(c, t, c) == t,
{
    lemma_div_multiples_vanish(c as int, c as int);
    lemma_div_multiples_vanish(t as int, c as int);
    assert(c * c == (c as int) * (c as int)) by (nonlinear_arith);
    assert(c * t == (c as int) * (t as int)) by (nonlinear_arith);
}

} // verus!
