//! The arithmetic of prices and fees.
use crate::market::ErrorCode;
use vstd::prelude::*;

verus! {

/// A number as an amount of tokens, if it is one.
pub open spec fn as_amount(x: int) -> Result<u64, ErrorCode> {
    if 0 <= x <= u64::MAX {
        Ok(x as u64)
    } else {
        Err(ErrorCode::Overflow)
    }
}

pub fn plus(a: u64, b: u64) -> (r: Result<u64, ErrorCode>)
    ensures
        r == as_amount(a + b),
{
    a.checked_add(b).ok_or(ErrorCode::Overflow)
}

pub fn minus(a: u64, b: u64) -> (r: Result<u64, ErrorCode>)
    ensures
        r == as_amount(a - b),
{
    a.checked_sub(b).ok_or(ErrorCode::Overflow)
}

/// What `quantity` tokens cost at `price` per `decimal_factor` tokens, rounded down.
pub open spec fn cost(quantity: u64, price: u64, decimal_factor: u64) -> Result<u64, ErrorCode> {
    if decimal_factor == 0 {
        Err(ErrorCode::Overflow)
    } else {
        as_amount((quantity as int * price as int) / decimal_factor as int)
    }
}

/// How many tokens `amount` buys at `price` per `decimal_factor` tokens, rounded down.
pub open spec fn buys(amount: u64, price: u64, decimal_factor: u64) -> Result<u64, ErrorCode> {
    if price == 0 {
        Err(ErrorCode::Overflow)
    } else {
        as_amount((amount as int * decimal_factor as int) / price as int)
    }
}

/// The commission on `amount` at `fee_rate` ten millionths, rounded down.
pub open spec fn commission(fee_rate: u32, amount: u64) -> Result<u64, ErrorCode> {
    as_amount((amount as int * fee_rate as int) / 10000000)
}

fn times(a: u64, b: u64) -> (r: u128)
    ensures
        r == a as int * b as int,
{
    proof {
        assert(0 <= a as int * b as int <= u64::MAX as int * u64::MAX as int) by (nonlinear_arith)
            requires
                0 <= a <= u64::MAX,
                0 <= b <= u64::MAX,
        ;
        assert(u64::MAX as int * u64::MAX as int <= u128::MAX);
    }
    a as u128 * b as u128
}

fn amount_of(x: u128) -> (r: Result<u64, ErrorCode>)
    ensures
        r == as_amount(x as int),
{
    if x <= u64::MAX as u128 {
        Ok(x as u64)
    } else {
        Err(ErrorCode::Overflow)
    }
}

pub fn scale_price(quantity: u64, price: u64, decimal_factor: u64) -> (r: Result<u64, ErrorCode>)
    ensures
        r == cost(quantity, price, decimal_factor),
{
    let tokens_calc: u128 = times(quantity, price);
    if decimal_factor == 0 {
        return Err(ErrorCode::Overflow);
    }
    amount_of(tokens_calc / decimal_factor as u128)
}

pub fn fill_quantity(input_price: u64, order_price: u64, decimal_factor: u64) -> (r: Result<u64, ErrorCode>)
    ensures
        r == buys(input_price, order_price, decimal_factor),
{
    let tokens_calc: u128 = times(input_price, decimal_factor);
    if order_price == 0 {
        return Err(ErrorCode::Overflow);
    }
    amount_of(tokens_calc / order_price as u128)
}

pub fn calculate_fee(fee_rate: u32, base_amount: u64) -> (r: Result<u64, ErrorCode>)
    ensures
        r == commission(fee_rate, base_amount),
{
    let fee: u128 = times(base_amount, fee_rate as u64);
    amount_of(fee / 10000000)
}

/// The number of smallest units in one token with so many decimals.
pub open spec fn units(decimals: u8) -> u64 {
    vstd::arithmetic::power::pow(10, decimals as nat) as u64
}

pub fn decimal_factor(decimals: u8) -> (r: u64)
    requires
        decimals <= 19,
    ensures
        r == units(decimals),
        r as int == vstd::arithmetic::power::pow(10, decimals as nat),
        r > 0,
{
    let mut r: u64 = 1;
    let mut i: u8 = 0;
    proof {
        vstd::arithmetic::power::lemma_pow0(10);
    }
    while i < decimals
        invariant
            i <= decimals <= 19,
            r as int == vstd::arithmetic::power::pow(10, i as nat),
            r > 0,
        decreases decimals - i,
    {
        proof {
            reveal_with_fuel(vstd::arithmetic::power::pow, 20);
            assert(vstd::arithmetic::power::pow(10, 18) == 1000000000000000000);
            vstd::arithmetic::power::lemma_pow_increases(10, i as nat, 18);
            assert(vstd::arithmetic::power::pow(10, (i + 1) as nat) == 10
                * vstd::arithmetic::power::pow(10, i as nat));
        }
        r = r * 10;
        i = i + 1;
    }
    r
}

} // verus!
