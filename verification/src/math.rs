//! The pricing formula of the constant-product curve.

use vstd::prelude::*;
use vstd::arithmetic::div_mod::*;

verus! {

/// A fee of this many basis points is the whole input.
pub const FEE_DENOMINATOR: u16 = 10_000;

/// The largest divisor that [`mul_div_floor`] takes: two to the power 80.
pub const MAX_DIVISOR: u128 = 0x1_0000_0000_0000_0000_0000;

/// The input that is left to trade after the fee, scaled by the fee
/// denominator.
pub open spec fn input_with_fee(amount_in: int, fee_bps: int) -> int {
    amount_in * (10_000 - fee_bps)
}

/// The output of the constant-product curve for `amount_in`, rounded down.
pub open spec fn amount_out(amount_in: int, reserve_in: int, reserve_out: int, fee_bps: int) -> int {
    (input_with_fee(amount_in, fee_bps) * reserve_out) / (reserve_in * 10_000 + input_with_fee(
        amount_in,
        fee_bps,
    ))
}

/// A quotient `a * b / c` with `a < c` is at most `b`.
pub proof fn lemma_quotient_at_most_factor(a: int, b: int, c: int)
    requires
        0 <= a < c,
        0 <= b,
    ensures
        0 <= (a * b) / c <= b,
{
    assert(0 <= a * b <= c * b) by (nonlinear_arith)
        requires
            0 <= a < c,
            0 <= b,
    ;
    lemma_div_pos_is_pos(a * b, c);
    lemma_div_is_ordered(a * b, c * b, c);
    lemma_div_multiples_vanish(b, c);
    assert(c * b == b * c) by (nonlinear_arith);
}

/// The rounded output never exceeds the exact solution of the curve: times
/// the divisor it is at most the dividend. It never exceeds the reserve it is
/// paid from, and stays below it whenever that reserve is not empty.
pub proof fn lemma_amount_out_rounds_down(
    amount_in: int,
    reserve_in: int,
    reserve_out: int,
    fee_bps: int,
)
    requires
        0 <= amount_in,
        0 < reserve_in,
        0 <= reserve_out,
        0 <= fee_bps <= 10_000,
    ensures
        0 <= amount_out(amount_in, reserve_in, reserve_out, fee_bps) <= reserve_out,
        amount_out(amount_in, reserve_in, reserve_out, fee_bps) * (reserve_in * 10_000
            + input_with_fee(amount_in, fee_bps)) <= input_with_fee(amount_in, fee_bps)
            * reserve_out,
        reserve_out > 0 ==> amount_out(amount_in, reserve_in, reserve_out, fee_bps) < reserve_out,
{
    let eff = input_with_fee(amount_in, fee_bps);
    let den = reserve_in * 10_000 + eff;
    let out = amount_out(amount_in, reserve_in, reserve_out, fee_bps);
    assert(0 <= eff) by (nonlinear_arith)
        requires
            eff == amount_in * (10_000 - fee_bps),
            0 <= amount_in,
            fee_bps <= 10_000,
    ;
    lemma_quotient_at_most_factor(eff, reserve_out, den);
    lemma_remainder_lower(eff * reserve_out, den);
    if reserve_out > 0 && out >= reserve_out {
        assert(out * den >= reserve_out * den) by (nonlinear_arith)
            requires
                out >= reserve_out,
                den > 0,
        ;
        assert(reserve_out * den > eff * reserve_out) by (nonlinear_arith)
            requires
                den > eff,
                reserve_out > 0,
        ;
    }
}

/// The invariant of the long division in [`mul_div_floor`] bounds the two
/// partial quotients by `b`.
proof fn lemma_partial_quotients_bounded(
    a: int,
    b: int,
    c: int,
    acc_q: int,
    acc_r: int,
    n: int,
    q: int,
    r: int,
)
    requires
        0 <= a < c,
        0 <= b,
        0 <= acc_q,
        0 <= acc_r,
        0 <= q,
        0 <= r,
        1 <= n,
        a * b == acc_q * c + acc_r + n * (q * c + r),
    ensures
        acc_q + q <= b,
{
    assert(n * (q * c + r) >= q * c) by (nonlinear_arith)
        requires
            1 <= n,
            0 <= q,
            0 <= r,
            0 < c,
    ;
    assert((acc_q + q) * c == acc_q * c + q * c) by (nonlinear_arith);
    assert(a * b <= b * c) by (nonlinear_arith)
        requires
            0 <= a < c,
            0 <= b,
    ;
    assert(acc_q + q <= b) by (nonlinear_arith)
        requires
            (acc_q + q) * c <= b * c,
            0 < c,
    ;
}

/// `a * b / c`, rounded down, for a product that may not fit in 128 bits.
///
/// Where the product fits it is divided directly. Otherwise the quotient is
/// built by long division over the binary digits of `b`: the quotient and
/// remainder of `a * 2^j` by `c` are doubled from one digit to the next and
/// added up for the digits that are set.
pub fn mul_div_floor(a: u128, b: u64, c: u128) -> (quotient: u64)
    requires
        a < c,
        c <= MAX_DIVISOR,
    ensures
        quotient == (a as int * b as int) / (c as int),
        quotient <= b,
{
    proof {
        lemma_quotient_at_most_factor(a as int, b as int, c as int);
    }
    match a.checked_mul(b as u128) {
        Some(product) => (product / c) as u64,
        None => {
            let mut n: u64 = b;
            let mut step_q: u128 = 0;
            let mut step_r: u128 = a;
            let mut acc_q: u128 = 0;
            let mut acc_r: u128 = 0;
            assert(a * b == acc_q * c + acc_r + n * (step_q * c + step_r)) by (nonlinear_arith)
                requires
                    acc_q == 0,
                    acc_r == 0,
                    step_q == 0,
                    step_r == a,
                    n == b,
            ;
            while n > 0
                invariant
                    a < c,
                    c <= MAX_DIVISOR,
                    step_r < c,
                    acc_r < c,
                    a * b == acc_q * c + acc_r + n * (step_q * c + step_r),
                decreases n,
            {
                proof {
                    lemma_partial_quotients_bounded(
                        a as int,
                        b as int,
                        c as int,
                        acc_q as int,
                        acc_r as int,
                        n as int,
                        step_q as int,
                        step_r as int,
                    );
                }
                let ghost before_q = acc_q as int;
                let ghost before_r = acc_r as int;
                let ghost term = step_q as int * c as int + step_r as int;
                let ghost digit: int = n as int % 2;
                let ghost prev_q = step_q as int;
                let ghost prev_r = step_r as int;
                if n % 2 == 1 {
                    acc_q = acc_q + step_q;
                    acc_r = acc_r + step_r;
                    if acc_r >= c {
                        acc_r = acc_r - c;
                        acc_q = acc_q + 1;
                    }
                }
                assert(acc_q * c + acc_r == before_q * c + before_r + digit * term)
                    by (nonlinear_arith)
                    requires
                        term == step_q * c + step_r,
                        digit == 0 || digit == 1,
                        digit == 0 ==> acc_q == before_q && acc_r == before_r,
                        digit == 1 ==> (acc_q == before_q + step_q && acc_r == before_r + step_r)
                            || (acc_q == before_q + step_q + 1 && acc_r == before_r + step_r - c),
                ;
                let ghost half: int = n as int / 2;
                n = n / 2;
                let doubled: u128 = step_r + step_r;
                if doubled >= c {
                    step_r = doubled - c;
                    step_q = step_q + step_q + 1;
                } else {
                    step_r = doubled;
                    step_q = step_q + step_q;
                }
                assert(step_q * c + step_r == 2 * term) by (nonlinear_arith)
                    requires
                        term == prev_q * c + prev_r,
                        (step_q == 2 * prev_q + 1 && step_r == 2 * prev_r - c) || (step_q == 2
                            * prev_q && step_r == 2 * prev_r),
                ;
                assert(a * b == acc_q * c + acc_r + n * (step_q * c + step_r)) by (nonlinear_arith)
                    requires
                        a * b == before_q * c + before_r + (2 * half + digit) * term,
                        acc_q * c + acc_r == before_q * c + before_r + digit * term,
                        step_q * c + step_r == 2 * term,
                        n == half,
                ;
            }
            proof {
                assert(a * b == acc_q * c + acc_r) by (nonlinear_arith)
                    requires
                        a * b == acc_q * c + acc_r + n * (step_q * c + step_r),
                        n == 0,
                ;
                lemma_fundamental_div_mod_converse_div(
                    a as int * b as int,
                    c as int,
                    acc_q as int,
                    acc_r as int,
                );
            }
            acc_q as u64
        },
    }
}

/// Quotes the output of a swap: how much of the other token the pool pays
/// for `amount_in`, after a fee of `fee_bps` basis points has been taken off
/// the input. The division rounds down, in the pool's favour.
pub fn get_amount_out(amount_in: u64, reserve_in: u64, reserve_out: u64, fee_bps: u16) -> (out: u64)
    requires
        reserve_in > 0,
        fee_bps <= 10_000,
    ensures
        out == amount_out(amount_in as int, reserve_in as int, reserve_out as int, fee_bps as int),
        out <= reserve_out,
        reserve_out > 0 ==> out < reserve_out,
        out * (reserve_in * 10_000 + input_with_fee(amount_in as int, fee_bps as int))
            <= input_with_fee(amount_in as int, fee_bps as int) * reserve_out,
{
    let fee_denominator: u128 = FEE_DENOMINATOR as u128;
    let keep: u128 = fee_denominator - fee_bps as u128;
    assert(amount_in * keep <= 0xffff_ffff_ffff_ffff * 10_000) by (nonlinear_arith)
        requires
            amount_in <= 0xffff_ffff_ffff_ffff,
            keep <= 10_000,
    ;
    let amount_in_with_fee: u128 = amount_in as u128 * keep;
    let denominator: u128 = reserve_in as u128 * fee_denominator + amount_in_with_fee;
    proof {
        lemma_amount_out_rounds_down(
            amount_in as int,
            reserve_in as int,
            reserve_out as int,
            fee_bps as int,
        );
    }
    mul_div_floor(amount_in_with_fee, reserve_out, denominator)
}

} // verus!
