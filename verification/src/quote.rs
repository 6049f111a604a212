//! Constant-product swap quotes on unsigned integers.
//!
//! The amounts are 128-bit numbers. The product of the scaled input and the
//! output reserve is held in 256 bits, so that it never overflows; the scaled
//! input and the divisor must fit in 128 bits.

use crate::wide::{div_wide, mul_wide, wide_value, word};
use vstd::prelude::*;

verus! {

/// The denominator of a fee given in basis points.
pub const FEE_DENOMINATOR: u128 = 10_000;

/// Why no quote can be given.
#[derive(Clone, Copy, Debug, PartialEq, Eq, Structural)]
pub enum QuoteError {
    /// The fee is not below `FEE_DENOMINATOR` basis points.
    InvalidFee,
    /// The input reserve is empty.
    DivisionByZero,
    /// The scaled input or the divisor does not fit in 128 bits.
    Overflow,
}

/// The input amount scaled by what the fee leaves of it.
pub open spec fn amount_after_fee(amount_in: nat, fee_bps: nat) -> nat {
    amount_in * ((FEE_DENOMINATOR as nat - fee_bps) as nat)
}

/// The divisor of the quote: the scaled input reserve plus the scaled input.
pub open spec fn quote_denominator(amount_in: nat, reserve_in: nat, fee_bps: nat) -> nat {
    reserve_in * (FEE_DENOMINATOR as nat) + amount_after_fee(amount_in, fee_bps)
}

/// The constant-product output, rounded down, over unbounded naturals.
pub open spec fn constant_product_out(
    amount_in: nat,
    reserve_in: nat,
    reserve_out: nat,
    fee_bps: nat,
) -> nat {
    (amount_after_fee(amount_in, fee_bps) * reserve_out) / quote_denominator(
        amount_in,
        reserve_in,
        fee_bps,
    )
}

/// The divisor of the quote, and with it the scaled input and the scaled
/// input reserve, fits in 128 bits.
pub open spec fn quote_fits(amount_in: nat, reserve_in: nat, fee_bps: nat) -> bool {
    quote_denominator(amount_in, reserve_in, fee_bps) <= u128::MAX
}

/// What a quote request yields: the fee is judged first, then the input
/// reserve, then the width of the intermediate values.
pub open spec fn quote_result(
    amount_in: u128,
    reserve_in: u128,
    reserve_out: u128,
    fee_bps: u128,
) -> Result<u128, QuoteError> {
    if fee_bps >= FEE_DENOMINATOR {
        Err(QuoteError::InvalidFee)
    } else if reserve_in == 0 {
        Err(QuoteError::DivisionByZero)
    } else if !quote_fits(amount_in as nat, reserve_in as nat, fee_bps as nat) {
        Err(QuoteError::Overflow)
    } else {
        Ok(
            constant_product_out(
                amount_in as nat,
                reserve_in as nat,
                reserve_out as nat,
                fee_bps as nat,
            ) as u128,
        )
    }
}

proof fn lemma_mul_le(a: nat, b: nat, c: nat)
    requires
        a <= b,
    ensures
        a * c <= b * c,
        c * a <= c * b,
{
    assert(a * c <= b * c) by (nonlinear_arith)
        requires
            a <= b,
    ;
    assert(c * a <= c * b) by (nonlinear_arith)
        requires
            a <= b,
    ;
}

/// A floored quotient never exceeds its numerator when the divisor is positive.
proof fn lemma_div_bounds(n: nat, d: nat)
    requires
        d > 0,
    ensures
        n / d <= n,
        (n / d) * d <= n,
        n < (n / d + 1) * d,
{
    assert(n / d <= n && (n / d) * d <= n && n < (n / d + 1) * d) by (nonlinear_arith)
        requires
            d > 0,
    ;
}

/// Computes the output of a constant-product swap: the input less its fee,
/// times the output reserve, divided by the input reserve plus the input less
/// its fee, rounded down.
pub fn uniswap_v2_amount_out(
    amount_in: u128,
    reserve_in: u128,
    reserve_out: u128,
    fee_bps: u128,
) -> (r: Result<u128, QuoteError>)
    ensures
        r == quote_result(amount_in, reserve_in, reserve_out, fee_bps),
{
    if fee_bps >= FEE_DENOMINATOR {
        return Err(QuoteError::InvalidFee);
    }
    if reserve_in == 0 {
        return Err(QuoteError::DivisionByZero);
    }
    let keep: u128 = FEE_DENOMINATOR - fee_bps;
    let ghost after = amount_after_fee(amount_in as nat, fee_bps as nat);
    let amount_in_with_fee: u128 = match amount_in.checked_mul(keep) {
        Some(v) => v,
        None => {
            return Err(QuoteError::Overflow);
        },
    };
    let scaled_reserve: u128 = match reserve_in.checked_mul(FEE_DENOMINATOR) {
        Some(v) => v,
        None => {
            return Err(QuoteError::Overflow);
        },
    };
    let denominator: u128 = match scaled_reserve.checked_add(amount_in_with_fee) {
        Some(v) => v,
        None => {
            return Err(QuoteError::Overflow);
        },
    };
    let (high, low) = mul_wide(amount_in_with_fee, reserve_out);
    proof {
        assert(reserve_in * FEE_DENOMINATOR >= 1) by (nonlinear_arith)
            requires
                reserve_in >= 1,
                FEE_DENOMINATOR == 10_000,
        ;
        assert(high <= after) by (nonlinear_arith)
            requires
                high * word() + low == after * reserve_out,
                reserve_out < word(),
                word() > 0,
                low >= 0,
                after >= 0,
        ;
        lemma_div_bounds(wide_value(high, low), denominator as nat);
    }
    Ok(div_wide(high, low, denominator))
}

/// Of two fractions with positive divisors, the smaller has the smaller floor.
proof fn lemma_floor_monotonic(n1: nat, d1: nat, n2: nat, d2: nat)
    requires
        d1 > 0,
        d2 > 0,
        n1 * d2 <= n2 * d1,
    ensures
        n1 / d1 <= n2 / d2,
{
    let q1 = n1 / d1;
    let q2 = n2 / d2;
    lemma_div_bounds(n1, d1);
    lemma_div_bounds(n2, d2);
    if q1 > q2 {
        assert((q2 + 1) * d2 <= q1 * d2) by (nonlinear_arith)
            requires
                q2 + 1 <= q1,
        ;
        assert(n2 * d1 < (q1 * d2) * d1) by (nonlinear_arith)
            requires
                n2 < q1 * d2,
                d1 > 0,
        ;
        assert((q1 * d1) * d2 <= n1 * d2) by (nonlinear_arith)
            requires
                q1 * d1 <= n1,
        ;
        assert((q1 * d2) * d1 == (q1 * d1) * d2) by (nonlinear_arith);
    }
}

/// A larger input never buys less: for fixed reserves and a valid fee the
/// output is monotonically non-decreasing in the input amount.
pub proof fn lemma_output_monotonic(
    amount_low: nat,
    amount_high: nat,
    reserve_in: nat,
    reserve_out: nat,
    fee_bps: nat,
)
    requires
        amount_low <= amount_high,
        fee_bps < FEE_DENOMINATOR,
        reserve_in > 0,
    ensures
        constant_product_out(amount_low, reserve_in, reserve_out, fee_bps) <= constant_product_out(
            amount_high,
            reserve_in,
            reserve_out,
            fee_bps,
        ),
{
    let keep = (FEE_DENOMINATOR as nat - fee_bps) as nat;
    let x1 = amount_low * keep;
    let x2 = amount_high * keep;
    let base = reserve_in * (FEE_DENOMINATOR as nat);
    lemma_mul_le(amount_low, amount_high, keep);
    assert(base > 0) by (nonlinear_arith)
        requires
            reserve_in > 0,
            base == reserve_in * 10_000,
    ;
    assert((x1 * reserve_out) * (base + x2) <= (x2 * reserve_out) * (base + x1))
        by (nonlinear_arith)
        requires
            x1 <= x2,
    ;
    lemma_floor_monotonic(x1 * reserve_out, base + x1, x2 * reserve_out, base + x2);
}

/// The quoting function is monotonic where it answers: if the larger input
/// has a quote, so has the smaller, and it is no greater.
pub proof fn lemma_quote_monotonic(
    amount_low: u128,
    amount_high: u128,
    reserve_in: u128,
    reserve_out: u128,
    fee_bps: u128,
)
    requires
        amount_low <= amount_high,
        quote_result(amount_high, reserve_in, reserve_out, fee_bps) is Ok,
    ensures
        quote_result(amount_low, reserve_in, reserve_out, fee_bps) is Ok,
        quote_result(amount_low, reserve_in, reserve_out, fee_bps).unwrap() <= quote_result(
            amount_high,
            reserve_in,
            reserve_out,
            fee_bps,
        ).unwrap(),
{
    let keep = (FEE_DENOMINATOR as nat - fee_bps as nat) as nat;
    lemma_mul_le(amount_low as nat, amount_high as nat, keep);
    lemma_output_monotonic(
        amount_low as nat,
        amount_high as nat,
        reserve_in as nat,
        reserve_out as nat,
        fee_bps as nat,
    );
    lemma_output_bounded(amount_low as nat, reserve_in as nat, reserve_out as nat, fee_bps as nat);
    lemma_output_bounded(amount_high as nat, reserve_in as nat, reserve_out as nat, fee_bps as nat);
}

/// The output never exceeds the output reserve, nor the product that it is
/// the quotient of.
pub proof fn lemma_output_bounded(amount_in: nat, reserve_in: nat, reserve_out: nat, fee_bps: nat)
    requires
        fee_bps < FEE_DENOMINATOR,
        reserve_in > 0,
    ensures
        constant_product_out(amount_in, reserve_in, reserve_out, fee_bps) <= amount_after_fee(
            amount_in,
            fee_bps,
        ) * reserve_out,
        constant_product_out(amount_in, reserve_in, reserve_out, fee_bps) <= reserve_out,
{
    let after = amount_after_fee(amount_in, fee_bps);
    let denom = quote_denominator(amount_in, reserve_in, fee_bps);
    let out = constant_product_out(amount_in, reserve_in, reserve_out, fee_bps);
    assert(reserve_in * (FEE_DENOMINATOR as nat) > 0) by (nonlinear_arith)
        requires
            reserve_in > 0,
    ;
    lemma_div_bounds(after * reserve_out, denom);
    if out > reserve_out {
        assert(out * denom >= (reserve_out + 1) * denom) by (nonlinear_arith)
            requires
                out >= reserve_out + 1,
        ;
        assert((reserve_out + 1) * denom > after * reserve_out) by (nonlinear_arith)
            requires
                denom > after,
        ;
    }
}

/// An empty input buys nothing: with a valid fee and a non-empty input
/// reserve whose scaled value fits in 128 bits, the quote for zero is zero.
pub proof fn lemma_quote_of_zero(reserve_in: u128, reserve_out: u128, fee_bps: u128)
    requires
        fee_bps < FEE_DENOMINATOR,
        reserve_in > 0,
        reserve_in * FEE_DENOMINATOR <= u128::MAX,
    ensures
        quote_result(0, reserve_in, reserve_out, fee_bps) == Ok::<u128, QuoteError>(0),
{
    assert(amount_after_fee(0, fee_bps as nat) == 0) by (nonlinear_arith)
        requires
            amount_after_fee(0, fee_bps as nat) == 0 * ((FEE_DENOMINATOR as nat - fee_bps as nat) as nat),
    ;
    assert(0 * (reserve_out as nat) == 0) by (nonlinear_arith);
    lemma_output_bounded(0, reserve_in as nat, reserve_out as nat, fee_bps as nat);
}

/// With a valid fee, an empty input reserve is answered by `DivisionByZero`,
/// whatever the other amounts are.
pub proof fn lemma_quote_of_empty_reserve(amount_in: u128, reserve_out: u128, fee_bps: u128)
    requires
        fee_bps < FEE_DENOMINATOR,
    ensures
        quote_result(amount_in, 0, reserve_out, fee_bps) == Err::<u128, QuoteError>(
            QuoteError::DivisionByZero,
        ),
{
}

/// With a fee above zero the trader gets strictly less than the spot price:
/// the output per unit of input stays below `reserve_out / reserve_in`.
pub proof fn lemma_output_below_spot(amount_in: nat, reserve_in: nat, reserve_out: nat, fee_bps: nat)
    requires
        0 < fee_bps < FEE_DENOMINATOR,
        amount_in > 0,
        reserve_in > 0,
        reserve_out > 0,
    ensures
        constant_product_out(amount_in, reserve_in, reserve_out, fee_bps) * reserve_in < amount_in
            * reserve_out,
{
    let scale = FEE_DENOMINATOR as nat;
    let keep = (scale - fee_bps) as nat;
    let x = amount_in * keep;
    let base = reserve_in * scale;
    let q = constant_product_out(amount_in, reserve_in, reserve_out, fee_bps);
    assert(base > 0) by (nonlinear_arith)
        requires
            reserve_in > 0,
            base == reserve_in * 10_000,
    ;
    lemma_div_bounds(x * reserve_out, base + x);
    assert(q * (base + x) <= x * reserve_out);
    assert(q * base <= x * reserve_out) by (nonlinear_arith)
        requires
            q * (base + x) <= x * reserve_out,
    ;
    assert(x * reserve_out < (amount_in * reserve_out) * scale) by (nonlinear_arith)
        requires
            x == amount_in * keep,
            keep < scale,
            amount_in > 0,
            reserve_out > 0,
    ;
    assert(q * base == (q * reserve_in) * scale) by (nonlinear_arith)
        requires
            base == reserve_in * scale,
    ;
    assert(q * reserve_in < amount_in * reserve_out) by (nonlinear_arith)
        requires
            (q * reserve_in) * scale < (amount_in * reserve_out) * scale,
            scale > 0,
    ;
}

} // verus!
