//! Deposits into the pool and proportional withdrawals from it.

use vstd::prelude::*;
use vstd::arithmetic::div_mod::*;
use crate::errors::AmmError;
use crate::pool::Pool;

verus! {

/// What a withdrawal pays out of each reserve.
#[derive(Clone, Copy, Debug, PartialEq, Eq, Structural)]
pub struct Withdrawal {
    pub amount_a: u64,
    pub amount_b: u64,
}

/// The amount of token B that matches a deposit of `amount_a` at the pool's
/// present ratio, rounded down.
pub open spec fn expected_b(amount_a: int, reserve_a: int, reserve_b: int) -> int {
    (amount_a * reserve_b) / reserve_a
}

/// The claims minted for a deposit: the smaller of the two amounts.
pub open spec fn lp_minted(amount_a: int, amount_b: int) -> int {
    if amount_a <= amount_b {
        amount_a
    } else {
        amount_b
    }
}

/// Why the pool refuses a deposit, if it does; the first test that fails
/// decides. The ratio is tested only while both reserves hold something.
pub open spec fn add_liquidity_error(pool: Pool, amount_a: u64, amount_b: u64) -> Option<AmmError> {
    if amount_a == 0 || amount_b == 0 {
        Some(AmmError::InvalidAmount)
    } else if pool.has_liquidity() && amount_b < expected_b(
        amount_a as int,
        pool.reserve_a as int,
        pool.reserve_b as int,
    ) {
        Some(AmmError::SlippageExceeded)
    } else if pool.reserve_a + amount_a > u64::MAX || pool.reserve_b + amount_b > u64::MAX {
        Some(AmmError::Overflow)
    } else {
        None
    }
}

/// The part of `reserve` that `lp_amount` claims out of `total_lp_supply`
/// stand for, rounded down.
pub open spec fn share(reserve: int, lp_amount: int, total_lp_supply: int) -> int {
    (reserve * lp_amount) / total_lp_supply
}

/// Whether a withdrawal is refused: more claims than the caller holds, or
/// than exist, or no claims outstanding at all.
pub open spec fn remove_liquidity_refused(lp_amount: u64, lp_balance: u64, total_lp_supply: u64) -> bool {
    lp_amount > lp_balance || total_lp_supply == 0 || lp_amount > total_lp_supply
}

/// The sum of a list of claim amounts.
pub open spec fn sum_of(lp_amounts: Seq<nat>) -> int
    decreases lp_amounts.len(),
{
    if lp_amounts.len() == 0 {
        0
    } else {
        sum_of(lp_amounts.drop_last()) + lp_amounts.last()
    }
}

/// What a list of withdrawals pays in all, each one taken against the same
/// reserve and the same supply.
pub open spec fn shares_of(reserve: int, lp_amounts: Seq<nat>, total_lp_supply: int) -> int
    decreases lp_amounts.len(),
{
    if lp_amounts.len() == 0 {
        0
    } else {
        shares_of(reserve, lp_amounts.drop_last(), total_lp_supply) + share(
            reserve,
            lp_amounts.last() as int,
            total_lp_supply,
        )
    }
}

/// A share is never more than the reserve, and all the claims take all of
/// it.
pub proof fn lemma_share_within_reserve(reserve: int, lp_amount: int, total_lp_supply: int)
    requires
        0 <= reserve,
        0 <= lp_amount <= total_lp_supply,
        0 < total_lp_supply,
    ensures
        0 <= share(reserve, lp_amount, total_lp_supply) <= reserve,
        lp_amount == total_lp_supply ==> share(reserve, lp_amount, total_lp_supply) == reserve,
        lp_amount < total_lp_supply && reserve > 0 ==> share(reserve, lp_amount, total_lp_supply)
            < reserve,
{
    assert(0 <= reserve * lp_amount <= reserve * total_lp_supply) by (nonlinear_arith)
        requires
            0 <= reserve,
            0 <= lp_amount <= total_lp_supply,
    ;
    lemma_div_pos_is_pos(reserve * lp_amount, total_lp_supply);
    lemma_div_is_ordered(reserve * lp_amount, reserve * total_lp_supply, total_lp_supply);
    lemma_div_multiples_vanish(reserve, total_lp_supply);
    assert(reserve * total_lp_supply == total_lp_supply * reserve) by (nonlinear_arith);
    if lp_amount < total_lp_supply && reserve > 0 {
        let s = share(reserve, lp_amount, total_lp_supply);
        lemma_remainder_lower(reserve * lp_amount, total_lp_supply);
        if s >= reserve {
            assert(s * total_lp_supply >= reserve * total_lp_supply) by (nonlinear_arith)
                requires
                    s >= reserve,
                    total_lp_supply > 0,
            ;
            assert(reserve * lp_amount < reserve * total_lp_supply) by (nonlinear_arith)
                requires
                    reserve > 0,
                    lp_amount < total_lp_supply,
            ;
        }
    }
}

/// Withdrawals against one reserve and one supply pay at most their exact
/// part of the reserve, and each loses less than one unit to rounding.
proof fn lemma_shares_bracket(reserve: int, lp_amounts: Seq<nat>, total_lp_supply: int)
    requires
        0 <= reserve,
        0 < total_lp_supply,
    ensures
        total_lp_supply * shares_of(reserve, lp_amounts, total_lp_supply) <= reserve * sum_of(
            lp_amounts,
        ),
        reserve * sum_of(lp_amounts) - total_lp_supply * shares_of(
            reserve,
            lp_amounts,
            total_lp_supply,
        ) <= lp_amounts.len() * (total_lp_supply - 1),
    decreases lp_amounts.len(),
{
    if lp_amounts.len() > 0 {
        let rest = lp_amounts.drop_last();
        let x = lp_amounts.last() as int;
        lemma_shares_bracket(reserve, rest, total_lp_supply);
        let s = share(reserve, x, total_lp_supply);
        lemma_fundamental_div_mod(reserve * x, total_lp_supply);
        lemma_mod_bound(reserve * x, total_lp_supply);
        let gap = reserve * x - total_lp_supply * s;
        assert(0 <= gap <= total_lp_supply - 1);
        let before = shares_of(reserve, rest, total_lp_supply);
        assert(total_lp_supply * (before + s) == total_lp_supply * before + total_lp_supply * s)
            by (nonlinear_arith);
        assert(reserve * (sum_of(rest) + x) == reserve * sum_of(rest) + reserve * x)
            by (nonlinear_arith);
        let slack = total_lp_supply - 1;
        assert(lp_amounts.len() * slack == rest.len() * slack + slack) by (nonlinear_arith)
            requires
                lp_amounts.len() == rest.len() + 1,
        ;
    } else {
        assert(reserve * 0 == 0) by (nonlinear_arith);
        assert(total_lp_supply * 0 == 0) by (nonlinear_arith);
    }
}

/// When holders withdraw all outstanding claims, each against the same
/// reserve and supply, together they receive the reserve less at most one
/// unit for every withdrawal but one, and never more than the reserve.
pub proof fn lemma_withdrawals_return_reserve(reserve: nat, lp_amounts: Seq<nat>, total_lp_supply: nat)
    requires
        total_lp_supply > 0,
        sum_of(lp_amounts) == total_lp_supply,
    ensures
        lp_amounts.len() >= 1,
        reserve - (lp_amounts.len() - 1) <= shares_of(
            reserve as int,
            lp_amounts,
            total_lp_supply as int,
        ) <= reserve,
{
    let n = lp_amounts.len() as int;
    let total = total_lp_supply as int;
    let paid = shares_of(reserve as int, lp_amounts, total);
    lemma_shares_bracket(reserve as int, lp_amounts, total);
    assert(paid <= reserve) by (nonlinear_arith)
        requires
            total * paid <= reserve * total,
            total > 0,
    ;
    assert(n >= 1);
    let lost = reserve - paid;
    assert(total * lost == reserve * total - total * paid) by (nonlinear_arith)
        requires
            lost == reserve - paid,
    ;
    assert(n * (total - 1) < n * total) by (nonlinear_arith)
        requires
            n >= 1,
    ;
    assert(lost < n) by (nonlinear_arith)
        requires
            total * lost < n * total,
            total > 0,
    ;
}

/// Deposits `amount_a` and `amount_b` and returns the claims to mint: the
/// smaller of the two.
///
/// The deposit is refused, and the pool left as it was, where an amount is
/// zero (`InvalidAmount`), where the pool holds both tokens and `amount_b`
/// is below the pool's ratio (`SlippageExceeded`), or where a reserve would
/// pass 64 bits (`Overflow`).
pub fn add_liquidity(pool: &mut Pool, amount_a: u64, amount_b: u64) -> (res: Result<u64, AmmError>)
    ensures
        match add_liquidity_error(*old(pool), amount_a, amount_b) {
            Some(e) => res == Err::<u64, AmmError>(e) && *final(pool) == *old(pool),
            None => res matches Ok(minted) && minted == lp_minted(amount_a as int, amount_b as int)
                && *final(pool) == (Pool {
                reserve_a: (old(pool).reserve_a + amount_a) as u64,
                reserve_b: (old(pool).reserve_b + amount_b) as u64,
                ..*old(pool)
            }),
        },
        res is Ok ==> final(pool).has_liquidity() && final(pool).k() >= old(pool).k(),
{
    if amount_a == 0 || amount_b == 0 {
        return Err(AmmError::InvalidAmount);
    }
    if pool.reserve_a > 0 && pool.reserve_b > 0 {
        assert(amount_a * pool.reserve_b <= 0xffff_ffff_ffff_ffff * 0xffff_ffff_ffff_ffff)
            by (nonlinear_arith)
            requires
                amount_a <= 0xffff_ffff_ffff_ffff,
                pool.reserve_b <= 0xffff_ffff_ffff_ffff,
        ;
        let expected: u128 = (amount_a as u128 * pool.reserve_b as u128) / pool.reserve_a as u128;
        if (amount_b as u128) < expected {
            return Err(AmmError::SlippageExceeded);
        }
    }
    let new_reserve_a: u64 = match pool.reserve_a.checked_add(amount_a) {
        Some(sum) => sum,
        None => {
            return Err(AmmError::Overflow);
        },
    };
    let new_reserve_b: u64 = match pool.reserve_b.checked_add(amount_b) {
        Some(sum) => sum,
        None => {
            return Err(AmmError::Overflow);
        },
    };
    assert(new_reserve_a * new_reserve_b >= pool.reserve_a * pool.reserve_b) by (nonlinear_arith)
        requires
            new_reserve_a >= pool.reserve_a,
            new_reserve_b >= pool.reserve_b,
            pool.reserve_a >= 0,
            pool.reserve_b >= 0,
    ;
    pool.reserve_a = new_reserve_a;
    pool.reserve_b = new_reserve_b;
    Ok(if amount_a <= amount_b {
        amount_a
    } else {
        amount_b
    })
}

/// Withdraws the part of both reserves that `lp_amount` claims stand for,
/// out of `total_lp_supply` outstanding, for a caller who holds `lp_balance`
/// claims.
///
/// The withdrawal is refused with `InvalidAmount`, and the pool left as it
/// was, where `lp_amount` is more than the caller holds or more than the
/// supply, or where no claims are outstanding.
pub fn remove_liquidity(pool: &mut Pool, lp_amount: u64, lp_balance: u64, total_lp_supply: u64) -> (res:
    Result<Withdrawal, AmmError>)
    ensures
        if remove_liquidity_refused(lp_amount, lp_balance, total_lp_supply) {
            res == Err::<Withdrawal, AmmError>(AmmError::InvalidAmount) && *final(pool) == *old(pool)
        } else {
            res matches Ok(paid) && paid.amount_a == share(
                old(pool).reserve_a as int,
                lp_amount as int,
                total_lp_supply as int,
            ) && paid.amount_b == share(
                old(pool).reserve_b as int,
                lp_amount as int,
                total_lp_supply as int,
            ) && *final(pool) == (Pool {
                reserve_a: (old(pool).reserve_a - paid.amount_a) as u64,
                reserve_b: (old(pool).reserve_b - paid.amount_b) as u64,
                ..*old(pool)
            }) && paid.amount_a <= old(pool).reserve_a && paid.amount_b <= old(pool).reserve_b
        },
        res is Ok && lp_amount == total_lp_supply ==> final(pool).reserve_a == 0
            && final(pool).reserve_b == 0,
{
    if lp_amount > lp_balance || total_lp_supply == 0 || lp_amount > total_lp_supply {
        return Err(AmmError::InvalidAmount);
    }
    proof {
        lemma_share_within_reserve(pool.reserve_a as int, lp_amount as int, total_lp_supply as int);
        lemma_share_within_reserve(pool.reserve_b as int, lp_amount as int, total_lp_supply as int);
    }
    assert(pool.reserve_a * lp_amount <= 0xffff_ffff_ffff_ffff * 0xffff_ffff_ffff_ffff)
        by (nonlinear_arith)
        requires
            pool.reserve_a <= 0xffff_ffff_ffff_ffff,
            lp_amount <= 0xffff_ffff_ffff_ffff,
    ;
    assert(pool.reserve_b * lp_amount <= 0xffff_ffff_ffff_ffff * 0xffff_ffff_ffff_ffff)
        by (nonlinear_arith)
        requires
            pool.reserve_b <= 0xffff_ffff_ffff_ffff,
            lp_amount <= 0xffff_ffff_ffff_ffff,
    ;
    let amount_a: u64 = (pool.reserve_a as u128 * lp_amount as u128 / total_lp_supply as u128) as u64;
    let amount_b: u64 = (pool.reserve_b as u128 * lp_amount as u128 / total_lp_supply as u128) as u64;
    pool.reserve_a = pool.reserve_a - amount_a;
    pool.reserve_b = pool.reserve_b - amount_b;
    Ok(Withdrawal { amount_a, amount_b })
}

} // verus!
