//! The fee taken from a swap's input and its split between the protocol and
//! the liquidity providers.

use vstd::prelude::*;
use crate::math::FEE_DENOMINATOR;

verus! {

/// The protocol keeps one part in this many of every fee; the rest stays in
/// the pool.
pub const PROTOCOL_FEE_DIVISOR: u64 = 5;

/// The fee on `amount_in` at `fee_bps` basis points, rounded down.
pub open spec fn total_fee(amount_in: int, fee_bps: int) -> int {
    (amount_in * fee_bps) / 10_000
}

/// The protocol's part of a fee: a fifth, rounded down.
pub open spec fn protocol_fee(total_fee: int) -> int {
    total_fee / 5
}

/// The liquidity providers' part of a fee: what the protocol leaves.
pub open spec fn lp_fee(total_fee: int) -> int {
    total_fee - protocol_fee(total_fee)
}

/// A fee and its two parts.
#[derive(Clone, Copy, Debug, PartialEq, Eq, Structural)]
pub struct FeeSplit {
    pub total_fee: u64,
    pub protocol_fee: u64,
    pub lp_fee: u64,
}

/// The two parts of a fee add up to the fee, with nothing lost to rounding,
/// and neither is negative.
pub proof fn lemma_fee_conservation(amount_in: int, fee_bps: int)
    requires
        0 <= amount_in,
        0 <= fee_bps,
    ensures
        total_fee(amount_in, fee_bps) == protocol_fee(total_fee(amount_in, fee_bps)) + lp_fee(
            total_fee(amount_in, fee_bps),
        ),
        0 <= protocol_fee(total_fee(amount_in, fee_bps)) <= total_fee(amount_in, fee_bps),
        0 <= lp_fee(total_fee(amount_in, fee_bps)) <= total_fee(amount_in, fee_bps),
{
    assert(0 <= amount_in * fee_bps) by (nonlinear_arith)
        requires
            0 <= amount_in,
            0 <= fee_bps,
    ;
}

/// A fee of at most the whole input is at most the input.
pub proof fn lemma_fee_at_most_input(amount_in: int, fee_bps: int)
    requires
        0 <= amount_in,
        0 <= fee_bps <= 10_000,
    ensures
        0 <= total_fee(amount_in, fee_bps) <= amount_in,
{
    assert(0 <= amount_in * fee_bps <= amount_in * 10_000) by (nonlinear_arith)
        requires
            0 <= amount_in,
            0 <= fee_bps <= 10_000,
    ;
}

/// Computes the fee on `amount_in` and splits it.
pub fn split_fee(amount_in: u64, fee_bps: u16) -> (split: FeeSplit)
    requires
        fee_bps <= 10_000,
    ensures
        split.total_fee == total_fee(amount_in as int, fee_bps as int),
        split.protocol_fee == protocol_fee(split.total_fee as int),
        split.lp_fee == lp_fee(split.total_fee as int),
        split.total_fee == split.protocol_fee + split.lp_fee,
        split.total_fee <= amount_in,
{
    proof {
        lemma_fee_at_most_input(amount_in as int, fee_bps as int);
    }
    assert(amount_in * fee_bps <= 0xffff_ffff_ffff_ffff * 10_000) by (nonlinear_arith)
        requires
            amount_in <= 0xffff_ffff_ffff_ffff,
            fee_bps <= 10_000,
    ;
    let wide: u128 = amount_in as u128 * fee_bps as u128 / (FEE_DENOMINATOR as u128);
    let total_fee: u64 = wide as u64;
    let protocol_fee: u64 = total_fee / PROTOCOL_FEE_DIVISOR;
    let lp_fee: u64 = total_fee - protocol_fee;
    FeeSplit { total_fee, protocol_fee, lp_fee }
}

} // verus!
