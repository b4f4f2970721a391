//! The pricing engine: pure constant-product price formulas with a
//! provider fee and an asymmetric rounding policy.
//!
//! `get_input_price` floors (the caller never receives more than the exact
//! quote), `get_output_price` floors and then adds one (the pool is never
//! under-charged). The asymmetry is what keeps the product of the reserves
//! from decreasing across a swap.

use crate::types::Error;
use vstd::arithmetic::div_mod::lemma_fundamental_div_mod;
use vstd::arithmetic::mul::lemma_mul_inequality;
use vstd::prelude::*;

verus! {

/// The input amount with the provider fee taken out, scaled by `fee_den`.
pub open spec fn net_input(input_amount: int, fee_num: int, fee_den: int) -> int {
    input_amount * (fee_den - fee_num)
}

/// Exact output of a fixed-input swap: floor of
/// `net * output_reserve / (input_reserve * fee_den + net)`.
pub open spec fn spec_input_price(
    input_amount: int,
    input_reserve: int,
    output_reserve: int,
    fee_num: int,
    fee_den: int,
) -> int {
    let net = net_input(input_amount, fee_num, fee_den);
    (net * output_reserve) / (input_reserve * fee_den + net)
}

/// Whether every intermediate product of the fixed-input formula fits in
/// 128 bits, in the order the computation performs them.
pub open spec fn input_price_fits(
    input_amount: int,
    input_reserve: int,
    output_reserve: int,
    fee_num: int,
    fee_den: int,
) -> bool {
    let net = net_input(input_amount, fee_num, fee_den);
    &&& net <= u128::MAX
    &&& net * output_reserve <= u128::MAX
    &&& input_reserve * fee_den <= u128::MAX
    &&& input_reserve * fee_den + net <= u128::MAX
}

/// Exact input owed for a fixed-output swap: floor of
/// `input_reserve * output * fee_den / ((output_reserve - output) * (fee_den - fee_num))`,
/// plus one so that truncation can never under-charge the pool.
pub open spec fn spec_output_price(
    output_amount: int,
    input_reserve: int,
    output_reserve: int,
    fee_num: int,
    fee_den: int,
) -> int {
    (input_reserve * output_amount * fee_den) / ((output_reserve - output_amount) * (fee_den
        - fee_num)) + 1
}

/// Whether every intermediate product of the fixed-output formula fits in
/// 128 bits, in the order the computation performs them.
pub open spec fn output_price_fits(
    output_amount: int,
    input_reserve: int,
    output_reserve: int,
    fee_num: int,
    fee_den: int,
) -> bool {
    &&& input_reserve * output_amount <= u128::MAX
    &&& input_reserve * output_amount * fee_den <= u128::MAX
    &&& (output_reserve - output_amount) * (fee_den - fee_num) <= u128::MAX
}

/// Output amount bought by a fixed input amount, against the given
/// reserves. Fails exactly when an intermediate product overflows.
pub fn get_input_price(
    input_amount: u128,
    input_reserve: u128,
    output_reserve: u128,
    fee_num: u128,
    fee_den: u128,
) -> (r: Result<u128, Error>)
    requires
        fee_num < fee_den,
        input_reserve > 0 || input_amount > 0,
    ensures
        r is Ok <==> input_price_fits(
            input_amount as int,
            input_reserve as int,
            output_reserve as int,
            fee_num as int,
            fee_den as int,
        ),
        r is Ok ==> r->Ok_0 == spec_input_price(
            input_amount as int,
            input_reserve as int,
            output_reserve as int,
            fee_num as int,
            fee_den as int,
        ),
        r is Err ==> r->Err_0 == Error::Overflow,
{
    let net = match input_amount.checked_mul(fee_den - fee_num) {
        Some(v) => v,
        None => {
            return Err(Error::Overflow);
        },
    };
    let numerator = match net.checked_mul(output_reserve) {
        Some(v) => v,
        None => {
            return Err(Error::Overflow);
        },
    };
    let scaled_reserve = match input_reserve.checked_mul(fee_den) {
        Some(v) => v,
        None => {
            return Err(Error::Overflow);
        },
    };
    let denominator = match scaled_reserve.checked_add(net) {
        Some(v) => v,
        None => {
            return Err(Error::Overflow);
        },
    };
    proof {
        if input_reserve > 0 {
            lemma_mul_inequality(1, input_reserve as int, fee_den as int);
        }
        if input_amount > 0 {
            lemma_mul_inequality(1, input_amount as int, fee_den - fee_num);
        }
        assert(denominator > 0);
    }
    Ok(numerator / denominator)
}

/// Input amount owed for a fixed output amount, against the given reserves.
/// Fails with `NotEnoughLiquidity` exactly when the requested output would
/// not leave the pool with a positive reserve, and with `Overflow` exactly
/// when an intermediate product overflows.
pub fn get_output_price(
    output_amount: u128,
    input_reserve: u128,
    output_reserve: u128,
    fee_num: u128,
    fee_den: u128,
) -> (r: Result<u128, Error>)
    requires
        fee_num < fee_den,
    ensures
        r == Err::<u128, Error>(Error::NotEnoughLiquidity) <==> output_amount >= output_reserve,
        r == Err::<u128, Error>(Error::Overflow) <==> output_amount < output_reserve
            && !output_price_fits(
            output_amount as int,
            input_reserve as int,
            output_reserve as int,
            fee_num as int,
            fee_den as int,
        ),
        r is Ok <==> output_amount < output_reserve && output_price_fits(
            output_amount as int,
            input_reserve as int,
            output_reserve as int,
            fee_num as int,
            fee_den as int,
        ),
        r is Ok ==> r->Ok_0 >= 1,
        r is Ok ==> r->Ok_0 == crate::math::sat_u128(
            spec_output_price(
                output_amount as int,
                input_reserve as int,
                output_reserve as int,
                fee_num as int,
                fee_den as int,
            ),
        ),
{
    if output_amount >= output_reserve {
        return Err(Error::NotEnoughLiquidity);
    }
    let base = match input_reserve.checked_mul(output_amount) {
        Some(v) => v,
        None => {
            return Err(Error::Overflow);
        },
    };
    let numerator = match base.checked_mul(fee_den) {
        Some(v) => v,
        None => {
            return Err(Error::Overflow);
        },
    };
    let denominator = match (output_reserve - output_amount).checked_mul(fee_den - fee_num) {
        Some(v) => v,
        None => {
            return Err(Error::Overflow);
        },
    };
    proof {
        lemma_mul_inequality(1, (output_reserve - output_amount) as int, fee_den - fee_num);
        assert(denominator > 0);
    }
    let quotient = numerator / denominator;
    if quotient == u128::MAX {
        Ok(u128::MAX)
    } else {
        Ok(quotient + 1)
    }
}

/// A fixed-input quote never reaches the output reserve: the pool cannot be
/// drained by a swap.
pub proof fn lemma_input_price_below_reserve(
    input_amount: int,
    input_reserve: int,
    output_reserve: int,
    fee_num: int,
    fee_den: int,
)
    requires
        0 <= fee_num < fee_den,
        input_amount >= 0,
        input_reserve >= 1,
        output_reserve >= 1,
    ensures
        spec_input_price(input_amount, input_reserve, output_reserve, fee_num, fee_den)
            < output_reserve,
{
    let net = net_input(input_amount, fee_num, fee_den);
    let den = input_reserve * fee_den + net;
    assert(net >= 0) by (nonlinear_arith)
        requires
            net == input_amount * (fee_den - fee_num),
            input_amount >= 0,
            fee_den > fee_num,
    ;
    assert(input_reserve * fee_den >= 1) by (nonlinear_arith)
        requires
            input_reserve >= 1,
            fee_den >= 1,
    ;
    // net * output_reserve < den * output_reserve, so the floor of the
    // quotient by den is below output_reserve.
    assert(net * output_reserve <= (den - 1) * output_reserve) by (nonlinear_arith)
        requires
            net <= den - 1,
            output_reserve >= 1,
    ;
    lemma_fundamental_div_mod(net * output_reserve, den);
    vstd::arithmetic::div_mod::lemma_mod_bound(net * output_reserve, den);
    let q = (net * output_reserve) / den;
    if q >= output_reserve {
        lemma_mul_inequality(output_reserve, q, den);
        assert(output_reserve * den >= den * output_reserve - output_reserve + 1)
            by (nonlinear_arith)
            requires
                den >= 1,
                output_reserve >= 1,
        ;
        assert((den - 1) * output_reserve == den * output_reserve - output_reserve)
            by (nonlinear_arith);
        assert(q * den == den * q) by (nonlinear_arith);
        assert(false);
    }
}

} // verus!
