//! The state of one trading pair.

use vstd::prelude::*;
use crate::address::{zero_bytes, Address};

verus! {

/// The fee of a pool that is created without one: 0.3%.
pub const DEFAULT_FEE_BPS: u16 = 30;

/// The largest fee a pool can charge, in basis points: the whole input.
pub const MAX_FEE_BPS: u16 = 10_000;

/// One trading pair: who it belongs to, the two tokens, and how much of each
/// the pool holds.
#[derive(Clone, Copy, Debug, PartialEq, Eq)]
pub struct Pool {
    pub authority: Address,
    pub token_a_mint: Address,
    pub token_b_mint: Address,
    pub vault_a: Address,
    pub vault_b: Address,
    pub vault_authority: Address,
    pub lp_mint: Address,
    /// How much of token A the pool holds.
    pub reserve_a: u64,
    /// How much of token B the pool holds.
    pub reserve_b: u64,
    /// The swap fee in basis points, fixed when the pool is created.
    pub fee_bps: u16,
}

impl Pool {
    /// A pool is well formed when its fee is at most the whole input.
    pub open spec fn wf(&self) -> bool {
        self.fee_bps <= 10_000
    }

    /// The product of the two reserves, which no swap may lower.
    pub open spec fn k(&self) -> int {
        self.reserve_a as int * self.reserve_b as int
    }

    /// Whether both reserves hold something.
    pub open spec fn has_liquidity(&self) -> bool {
        self.reserve_a > 0 && self.reserve_b > 0
    }

    /// Whether the fee is in range, for callers that build a pool from
    /// stored fields.
    pub fn is_well_formed(&self) -> (ok: bool)
        ensures
            ok == self.wf(),
    {
        self.fee_bps <= MAX_FEE_BPS
    }

    /// The product of the two reserves.
    pub fn product(&self) -> (k: u128)
        ensures
            k == self.k(),
    {
        assert(self.reserve_a * self.reserve_b <= 0xffff_ffff_ffff_ffff * 0xffff_ffff_ffff_ffff)
            by (nonlinear_arith)
            requires
                self.reserve_a <= 0xffff_ffff_ffff_ffff,
                self.reserve_b <= 0xffff_ffff_ffff_ffff,
        ;
        self.reserve_a as u128 * self.reserve_b as u128
    }
}

/// A new, empty pool for the pair. Its fee is `fee_bps`, or the default of 30
/// basis points where none is given. The fields that are not handed in hold
/// the zero address.
pub fn create_pool(
    token_a_mint: Address,
    token_b_mint: Address,
    vault_authority: Address,
    lp_mint: Address,
    fee_bps: Option<u16>,
) -> (pool: Pool)
    requires
        fee_bps matches Some(fee) ==> fee <= 10_000,
    ensures
        pool.wf(),
        pool.token_a_mint == token_a_mint,
        pool.token_b_mint == token_b_mint,
        pool.vault_authority == vault_authority,
        pool.lp_mint == lp_mint,
        pool.authority@ == zero_bytes(),
        pool.vault_a@ == zero_bytes(),
        pool.vault_b@ == zero_bytes(),
        pool.reserve_a == 0,
        pool.reserve_b == 0,
        pool.fee_bps == (match fee_bps {
            Some(fee) => fee,
            None => 30u16,
        }),
{
    let fee: u16 = match fee_bps {
        Some(fee) => fee,
        None => DEFAULT_FEE_BPS,
    };
    Pool {
        authority: Address::zero(),
        token_a_mint,
        token_b_mint,
        vault_a: Address::zero(),
        vault_b: Address::zero(),
        vault_authority,
        lp_mint,
        reserve_a: 0,
        reserve_b: 0,
        fee_bps: fee,
    }
}

} // verus!
