//! The protocol's fee counter.

use vstd::prelude::*;
use crate::address::Address;
use crate::errors::AmmError;

verus! {

/// The account that adds up the protocol's part of every swap fee.
#[derive(Clone, Copy, Debug, PartialEq, Eq)]
pub struct Treasury {
    /// Who may withdraw what has been collected.
    pub authority: Address,
    /// The sum of all protocol fees so far. It never goes down.
    pub total_fees_collected: u64,
}

/// A new treasury under `authority`, with nothing collected.
pub fn init_treasury(authority: Address) -> (treasury: Treasury)
    ensures
        treasury.authority == authority,
        treasury.total_fees_collected == 0,
{
    Treasury { authority, total_fees_collected: 0 }
}

impl Treasury {
    /// Adds `amount` to the fees collected. Fails with `Overflow`, changing
    /// nothing, exactly when the sum does not fit in 64 bits.
    pub fn record_protocol_fee(&mut self, amount: u64) -> (res: Result<(), AmmError>)
        ensures
            final(self).authority == old(self).authority,
            final(self).total_fees_collected >= old(self).total_fees_collected,
            old(self).total_fees_collected + amount <= u64::MAX ==> res == Ok::<(), AmmError>(())
                && final(self).total_fees_collected == old(self).total_fees_collected + amount,
            old(self).total_fees_collected + amount > u64::MAX ==> res == Err::<(), AmmError>(
                AmmError::Overflow,
            ) && *final(self) == *old(self),
    {
        match self.total_fees_collected.checked_add(amount) {
            Some(sum) => {
                self.total_fees_collected = sum;
                Ok(())
            },
            None => Err(AmmError::Overflow),
        }
    }
}

} // verus!
