//! Swapping one token of the pair for the other.

use vstd::prelude::*;
use crate::address::Address;
use crate::errors::AmmError;
use crate::fees::{
    lemma_fee_at_most_input, lemma_fee_conservation, lp_fee, protocol_fee, split_fee, total_fee,
};
use crate::math::{amount_out, get_amount_out, lemma_amount_out_rounds_down};
use crate::pool::Pool;
use crate::treasury::Treasury;

verus! {

/// What a swap paid out and what it charged.
#[derive(Clone, Copy, Debug, PartialEq, Eq, Structural)]
pub struct SwapAmounts {
    /// What the pool pays to the trader.
    pub amount_out: u64,
    /// The part of the fee that goes to the treasury.
    pub protocol_fee: u64,
    /// The part of the fee that stays in the pool.
    pub lp_fee: u64,
}

/// A completed swap, as it is reported to the outside.
#[derive(Clone, Copy, Debug, PartialEq, Eq, Structural)]
pub struct SwapOutcome {
    /// What the trader paid in.
    pub amount_in: u64,
    /// What the pool paid out.
    pub amount_out: u64,
    /// By how much the treasury's counter grew.
    pub protocol_fee: u64,
}

/// The reserve that a swap pays into.
pub open spec fn reserve_in(pool: Pool, a_to_b: bool) -> int {
    if a_to_b {
        pool.reserve_a as int
    } else {
        pool.reserve_b as int
    }
}

/// The reserve that a swap is paid from.
pub open spec fn reserve_out(pool: Pool, a_to_b: bool) -> int {
    if a_to_b {
        pool.reserve_b as int
    } else {
        pool.reserve_a as int
    }
}

/// What is left of a swap's input once the fee is taken off.
pub open spec fn effective_input(amount_in: int, fee_bps: int) -> int {
    amount_in - total_fee(amount_in, fee_bps)
}

/// What a swap of `amount_in` pays out: the fee comes off the input first,
/// and the rest is priced with no further fee.
pub open spec fn swap_output(pool: Pool, amount_in: int, a_to_b: bool) -> int {
    amount_out(
        effective_input(amount_in, pool.fee_bps as int),
        reserve_in(pool, a_to_b),
        reserve_out(pool, a_to_b),
        0,
    )
}

/// The input-side reserve after a swap: the input less the protocol's part
/// of the fee is added to it.
pub open spec fn reserve_in_after(pool: Pool, amount_in: int, a_to_b: bool) -> int {
    reserve_in(pool, a_to_b) + effective_input(amount_in, pool.fee_bps as int) + lp_fee(
        total_fee(amount_in, pool.fee_bps as int),
    )
}

/// The output-side reserve after a swap.
pub open spec fn reserve_out_after(pool: Pool, amount_in: int, a_to_b: bool) -> int {
    reserve_out(pool, a_to_b) - swap_output(pool, amount_in, a_to_b)
}

/// Why the pool refuses a swap, if it does. The tests are made in this
/// order, and the first that fails decides.
pub open spec fn swap_error(pool: Pool, amount_in: u64, a_to_b: bool, min_amount_out: u64) -> Option<
    AmmError,
> {
    if pool.reserve_a == 0 || pool.reserve_b == 0 {
        Some(AmmError::PoolEmpty)
    } else if amount_in == 0 {
        Some(AmmError::InvalidAmount)
    } else if swap_output(pool, amount_in as int, a_to_b) < min_amount_out {
        Some(AmmError::SlippageExceeded)
    } else if reserve_in_after(pool, amount_in as int, a_to_b) > u64::MAX {
        Some(AmmError::Overflow)
    } else {
        None
    }
}

/// The pool after a swap that it accepts: only the two reserves change.
pub open spec fn pool_after_swap(pool: Pool, amount_in: u64, a_to_b: bool) -> Pool {
    if a_to_b {
        Pool {
            reserve_a: reserve_in_after(pool, amount_in as int, a_to_b) as u64,
            reserve_b: reserve_out_after(pool, amount_in as int, a_to_b) as u64,
            ..pool
        }
    } else {
        Pool {
            reserve_a: reserve_out_after(pool, amount_in as int, a_to_b) as u64,
            reserve_b: reserve_in_after(pool, amount_in as int, a_to_b) as u64,
            ..pool
        }
    }
}

/// Pricing with no fee is the plain curve: `x * out / (in + x)`.
pub proof fn lemma_amount_out_without_fee(amount_in: int, reserve_in: int, reserve_out: int)
    requires
        0 <= amount_in,
        0 < reserve_in,
        0 <= reserve_out,
    ensures
        amount_out(amount_in, reserve_in, reserve_out, 0) == (amount_in * reserve_out) / (reserve_in
            + amount_in),
{
    let num = amount_in * reserve_out;
    let den = reserve_in + amount_in;
    assert(0 <= num) by (nonlinear_arith)
        requires
            num == amount_in * reserve_out,
            0 <= amount_in,
            0 <= reserve_out,
    ;
    vstd::arithmetic::div_mod::lemma_div_multiples_vanish_quotient(10_000, num, den);
    assert((amount_in * (10_000 - 0)) * reserve_out == 10_000 * num) by (nonlinear_arith)
        requires
            num == amount_in * reserve_out,
    ;
    assert(reserve_in * 10_000 + amount_in * (10_000 - 0) == 10_000 * den) by (nonlinear_arith)
        requires
            den == reserve_in + amount_in,
    ;
}

/// The heart of the curve: paying in `input + kept` and paying out the
/// priced output of `input` never lowers the product of the reserves.
pub proof fn lemma_product_never_shrinks(reserve_in: int, reserve_out: int, input: int, kept: int)
    requires
        0 < reserve_in,
        0 <= reserve_out,
        0 <= input,
        0 <= kept,
    ensures
        0 <= amount_out(input, reserve_in, reserve_out, 0) <= reserve_out,
        (reserve_in + input + kept) * (reserve_out - amount_out(input, reserve_in, reserve_out, 0))
            >= reserve_in * reserve_out,
{
    let out = amount_out(input, reserve_in, reserve_out, 0);
    lemma_amount_out_rounds_down(input, reserve_in, reserve_out, 0);
    lemma_amount_out_without_fee(input, reserve_in, reserve_out);
    vstd::arithmetic::div_mod::lemma_remainder_lower(input * reserve_out, reserve_in + input);
    assert(0 <= input * reserve_out) by (nonlinear_arith)
        requires
            0 <= input,
            0 <= reserve_out,
    ;
    assert(out * (reserve_in + input) <= input * reserve_out);
    assert((reserve_in + input + kept) * (reserve_out - out) >= reserve_in * reserve_out)
        by (nonlinear_arith)
        requires
            out * (reserve_in + input) <= input * reserve_out,
            0 <= out <= reserve_out,
            0 <= kept,
            0 < reserve_in,
            0 <= input,
    ;
}

/// Every swap that the pool accepts leaves the product of its reserves at
/// least as large as it was, and leaves both reserves above zero.
pub proof fn lemma_swap_keeps_invariant(pool: Pool, amount_in: u64, a_to_b: bool, min_amount_out: u64)
    requires
        pool.wf(),
        swap_error(pool, amount_in, a_to_b, min_amount_out) is None,
    ensures
        pool_after_swap(pool, amount_in, a_to_b).k() >= pool.k(),
        pool_after_swap(pool, amount_in, a_to_b).has_liquidity(),
        pool_after_swap(pool, amount_in, a_to_b).wf(),
        reserve_in_after(pool, amount_in as int, a_to_b) >= reserve_in(pool, a_to_b),
        0 < reserve_out_after(pool, amount_in as int, a_to_b) <= reserve_out(pool, a_to_b),
{
    let fee = total_fee(amount_in as int, pool.fee_bps as int);
    let input = effective_input(amount_in as int, pool.fee_bps as int);
    lemma_fee_at_most_input(amount_in as int, pool.fee_bps as int);
    lemma_fee_conservation(amount_in as int, pool.fee_bps as int);
    lemma_product_never_shrinks(reserve_in(pool, a_to_b), reserve_out(pool, a_to_b), input, lp_fee(fee));
    lemma_amount_out_rounds_down(input, reserve_in(pool, a_to_b), reserve_out(pool, a_to_b), 0);
    let after = pool_after_swap(pool, amount_in, a_to_b);
    let new_in = reserve_in_after(pool, amount_in as int, a_to_b);
    let new_out = reserve_out_after(pool, amount_in as int, a_to_b);
    assert(new_in * new_out >= reserve_in(pool, a_to_b) * reserve_out(pool, a_to_b));
    if a_to_b {
        assert(after.k() == new_in * new_out);
    } else {
        assert(after.k() == new_out * new_in);
        assert(new_out * new_in == new_in * new_out) by (nonlinear_arith);
        assert(pool.k() == reserve_in(pool, a_to_b) * reserve_out(pool, a_to_b)) by (nonlinear_arith)
            requires
                pool.k() == reserve_out(pool, a_to_b) * reserve_in(pool, a_to_b),
        ;
    }
}

/// Applies one swap to the pool. The direction is read off `input_mint`
/// alone: token A is paid in where it is the pool's token A, token B
/// otherwise.
///
/// The swap is refused, and the pool left as it was, on an empty pool
/// (`PoolEmpty`), a zero input (`InvalidAmount`), an output below
/// `min_amount_out` (`SlippageExceeded`), or a reserve that would pass 64
/// bits (`Overflow`). The product of the reserves is compared before the
/// reserves are written; that comparison never fails.
pub fn handler(pool: &mut Pool, amount_in: u64, input_mint: &Address, min_amount_out: u64) -> (res:
    Result<SwapAmounts, AmmError>)
    requires
        old(pool).wf(),
    ensures
        final(pool).wf(),
        match swap_error(
            *old(pool),
            amount_in,
            input_mint@ == old(pool).token_a_mint@,
            min_amount_out,
        ) {
            Some(e) => res == Err::<SwapAmounts, AmmError>(e) && *final(pool) == *old(pool),
            None => res matches Ok(amounts) && amounts.amount_out == swap_output(
                *old(pool),
                amount_in as int,
                input_mint@ == old(pool).token_a_mint@,
            ) && amounts.protocol_fee == protocol_fee(
                total_fee(amount_in as int, old(pool).fee_bps as int),
            ) && amounts.lp_fee == lp_fee(total_fee(amount_in as int, old(pool).fee_bps as int))
                && *final(pool) == pool_after_swap(
                *old(pool),
                amount_in,
                input_mint@ == old(pool).token_a_mint@,
            ),
        },
        res is Ok ==> final(pool).k() >= old(pool).k(),
        res is Ok ==> final(pool).has_liquidity(),
        !old(pool).has_liquidity() ==> res == Err::<SwapAmounts, AmmError>(AmmError::PoolEmpty),
        old(pool).has_liquidity() && amount_in == 0 ==> res == Err::<SwapAmounts, AmmError>(
            AmmError::InvalidAmount,
        ),
        res != Err::<SwapAmounts, AmmError>(AmmError::InvariantViolation),
{
    if pool.reserve_a == 0 || pool.reserve_b == 0 {
        return Err(AmmError::PoolEmpty);
    }
    if amount_in == 0 {
        return Err(AmmError::InvalidAmount);
    }
    let is_a_to_b = input_mint.same_as(&pool.token_a_mint);
    let (reserve_in, reserve_out) = if is_a_to_b {
        (pool.reserve_a, pool.reserve_b)
    } else {
        (pool.reserve_b, pool.reserve_a)
    };
    let fees = split_fee(amount_in, pool.fee_bps);
    let effective_input: u64 = amount_in - fees.total_fee;
    let amount_out = get_amount_out(effective_input, reserve_in, reserve_out, 0);
    if amount_out < min_amount_out {
        return Err(AmmError::SlippageExceeded);
    }
    let old_k: u128 = pool.product();
    let new_reserve_in: u64 = match reserve_in.checked_add(effective_input + fees.lp_fee) {
        Some(sum) => sum,
        None => {
            return Err(AmmError::Overflow);
        },
    };
    let new_reserve_out: u64 = match reserve_out.checked_sub(amount_out) {
        Some(rest) => rest,
        None => {
            return Err(AmmError::Overflow);
        },
    };
    proof {
        lemma_swap_keeps_invariant(*pool, amount_in, is_a_to_b, min_amount_out);
    }
    let mut next = *pool;
    if is_a_to_b {
        next.reserve_a = new_reserve_in;
        next.reserve_b = new_reserve_out;
    } else {
        next.reserve_b = new_reserve_in;
        next.reserve_a = new_reserve_out;
    }
    assert(next == pool_after_swap(*pool, amount_in, is_a_to_b));
    let new_k: u128 = next.product();
    if new_k < old_k {
        return Err(AmmError::InvariantViolation);
    }
    *pool = next;
    Ok(SwapAmounts { amount_out, protocol_fee: fees.protocol_fee, lp_fee: fees.lp_fee })
}

/// Carries out one swap: applies it to the pool as [`handler`] does, and adds
/// the protocol's part of the fee to the treasury. Either both change or
/// neither: where the treasury's counter would pass 64 bits the swap fails
/// with `Overflow` and the pool keeps its reserves.
pub fn swap(
    pool: &mut Pool,
    treasury: &mut Treasury,
    amount_in: u64,
    input_mint: &Address,
    min_amount_out: u64,
) -> (res: Result<SwapOutcome, AmmError>)
    requires
        old(pool).wf(),
    ensures
        final(pool).wf(),
        final(treasury).authority == old(treasury).authority,
        final(treasury).total_fees_collected >= old(treasury).total_fees_collected,
        match swap_error(
            *old(pool),
            amount_in,
            input_mint@ == old(pool).token_a_mint@,
            min_amount_out,
        ) {
            Some(e) => res == Err::<SwapOutcome, AmmError>(e) && *final(pool) == *old(pool)
                && *final(treasury) == *old(treasury),
            None => if old(treasury).total_fees_collected + protocol_fee(
                total_fee(amount_in as int, old(pool).fee_bps as int),
            ) > u64::MAX {
                res == Err::<SwapOutcome, AmmError>(AmmError::Overflow)
                    && *final(pool) == *old(pool) && *final(treasury) == *old(treasury)
            } else {
                res matches Ok(outcome) && outcome.amount_in == amount_in && outcome.amount_out
                    == swap_output(
                    *old(pool),
                    amount_in as int,
                    input_mint@ == old(pool).token_a_mint@,
                ) && outcome.protocol_fee == protocol_fee(
                    total_fee(amount_in as int, old(pool).fee_bps as int),
                ) && *final(pool) == pool_after_swap(
                    *old(pool),
                    amount_in,
                    input_mint@ == old(pool).token_a_mint@,
                ) && final(treasury).total_fees_collected == old(treasury).total_fees_collected
                    + outcome.protocol_fee
            },
        },
        res is Ok ==> final(pool).k() >= old(pool).k(),
        res is Ok ==> final(pool).has_liquidity(),
        !old(pool).has_liquidity() ==> res == Err::<SwapOutcome, AmmError>(AmmError::PoolEmpty),
        old(pool).has_liquidity() && amount_in == 0 ==> res == Err::<SwapOutcome, AmmError>(
            AmmError::InvalidAmount,
        ),
        res != Err::<SwapOutcome, AmmError>(AmmError::InvariantViolation),
{
    let mut next = *pool;
    let amounts = match handler(&mut next, amount_in, input_mint, min_amount_out) {
        Ok(amounts) => amounts,
        Err(e) => {
            return Err(e);
        },
    };
    match treasury.record_protocol_fee(amounts.protocol_fee) {
        Ok(()) => {},
        Err(e) => {
            return Err(e);
        },
    }
    *pool = next;
    Ok(SwapOutcome { amount_in, amount_out: amounts.amount_out, protocol_fee: amounts.protocol_fee })
}

} // verus!
