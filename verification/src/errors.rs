//! The ways an operation on a pool can fail.

use vstd::prelude::*;

verus! {

/// Why an operation was refused. Every failure leaves pool and treasury as
/// they were.
#[derive(Clone, Copy, Debug, PartialEq, Eq, Structural)]
pub enum AmmError {
    /// The computed output or the deposit ratio is below the caller's bound.
    SlippageExceeded,
    /// The product of the reserves would have shrunk across a swap.
    InvariantViolation,
    /// Part of the taxonomy; no operation of this crate returns it.
    InsufficientLiquidity,
    /// A supplied amount is zero or outside its domain.
    InvalidAmount,
    /// One of the pool's reserves is zero.
    PoolEmpty,
    /// A sum does not fit in 64 bits.
    Overflow,
}

impl AmmError {
    /// The message that belongs to the error, as a short English phrase.
    pub fn message(&self) -> (text: &'static str)
        ensures
            text@ == Self::message_of(*self),
    {
        proof {
            reveal_strlit("Slippage exceeded");
            reveal_strlit("Invariant violation");
            reveal_strlit("Insufficient liquidity");
            reveal_strlit("Invalid amount");
            reveal_strlit("Pool has no liquidity");
            reveal_strlit("Math overflow");
        }
        match self {
            AmmError::SlippageExceeded => "Slippage exceeded",
            AmmError::InvariantViolation => "Invariant violation",
            AmmError::InsufficientLiquidity => "Insufficient liquidity",
            AmmError::InvalidAmount => "Invalid amount",
            AmmError::PoolEmpty => "Pool has no liquidity",
            AmmError::Overflow => "Math overflow",
        }
    }

    /// The text of each error's message.
    pub open spec fn message_of(e: AmmError) -> Seq<char> {
        match e {
            AmmError::SlippageExceeded => "Slippage exceeded"@,
            AmmError::InvariantViolation => "Invariant violation"@,
            AmmError::InsufficientLiquidity => "Insufficient liquidity"@,
            AmmError::InvalidAmount => "Invalid amount"@,
            AmmError::PoolEmpty => "Pool has no liquidity"@,
            AmmError::Overflow => "Math overflow"@,
        }
    }
}

} // verus!
