use amm_core::{get_amount_out, mul_div_floor, split_fee, AmmError, FeeSplit};

#[test]
fn quote_with_default_fee() {
    // 1000 * 9970 * 1_000_000 / (1_000_000 * 10_000 + 1000 * 9970) = 996.007...
    assert_eq!(get_amount_out(1000, 1_000_000, 1_000_000, 30), 996);
}

#[test]
fn quote_without_fee() {
    // 997 * 1_000_000 / (1_000_000 + 997) = 996.006...
    assert_eq!(get_amount_out(997, 1_000_000, 1_000_000, 0), 996);
    // 100 * 50 / (100 + 100) = 25
    assert_eq!(get_amount_out(100, 100, 50, 0), 25);
}

#[test]
fn quote_rounds_down() {
    // 1 * 10 / (3 + 1) = 2.5
    assert_eq!(get_amount_out(1, 3, 10, 0), 2);
    // 10 * 5000 * 7 / (10 * 10_000 + 10 * 5000) = 2.33...
    assert_eq!(get_amount_out(10, 10, 7, 5000), 2);
}

#[test]
fn quote_with_full_fee_pays_nothing() {
    assert_eq!(get_amount_out(1_000_000, 500, 500, 10_000), 0);
}

#[test]
fn quote_of_nothing_is_nothing() {
    assert_eq!(get_amount_out(0, 500, 500, 30), 0);
    assert_eq!(get_amount_out(500, 500, 0, 30), 0);
}

#[test]
fn quote_stays_below_reserve() {
    let out = get_amount_out(u64::MAX, 1, 1000, 0);
    assert_eq!(out, 999);
    assert!(get_amount_out(u64::MAX, 1, 1, 0) < 1);
}

#[test]
fn quote_never_exceeds_exact_solution() {
    let cases: [(u64, u64, u64, u16); 5] = [
        (1000, 1_000_000, 1_000_000, 30),
        (1, 3, 10, 0),
        (123_456, 789, 1_000_003, 250),
        (5, 7, 11, 9999),
        (4_000_000_000, 3_000_000_000, 2_000_000_000, 1),
    ];
    for (amount_in, reserve_in, reserve_out, fee_bps) in cases {
        let out = get_amount_out(amount_in, reserve_in, reserve_out, fee_bps) as u128;
        let eff = amount_in as u128 * (10_000 - fee_bps as u128);
        let den = reserve_in as u128 * 10_000 + eff;
        assert!(out * den <= eff * reserve_out as u128);
        assert!((out + 1) * den > eff * reserve_out as u128);
    }
}

#[test]
fn quote_on_products_beyond_128_bits() {
    // M = 2^64 - 1: M * M / (M + 1) = M - 1 + 1 / 2^64
    assert_eq!(get_amount_out(u64::MAX, 1, u64::MAX, 0), u64::MAX - 1);
    // M * M / (M + M) = M / 2
    assert_eq!(get_amount_out(u64::MAX, u64::MAX, u64::MAX, 0), 9_223_372_036_854_775_807);
    // M * 9970 * M / (M * 10_000 + M * 9970) = M * 9970 / 19_970
    let expected = (u64::MAX as u128 * 9970 / 19_970) as u64;
    assert_eq!(get_amount_out(u64::MAX, u64::MAX, u64::MAX, 30), expected);
}

#[test]
fn mul_div_floor_small_values() {
    assert_eq!(mul_div_floor(7, 10, 8), 8);
    assert_eq!(mul_div_floor(0, 10, 8), 0);
    assert_eq!(mul_div_floor(7, 0, 8), 0);
    assert_eq!(mul_div_floor(1, 1, 2), 0);
    assert_eq!(mul_div_floor(3, 5, 4), 3);
}

#[test]
fn mul_div_floor_long_division() {
    let two_80: u128 = 1u128 << 80;
    // (2^80 - 1) * M / 2^80 = M - M / 2^80
    assert_eq!(mul_div_floor(two_80 - 1, u64::MAX, two_80), u64::MAX - 1);
    // (2^79) * M / 2^80 = M / 2
    assert_eq!(mul_div_floor(1u128 << 79, u64::MAX, two_80), u64::MAX / 2);
    // 2^70 * 2^63 / (2^70 + 1): one less than 2^63
    assert_eq!(mul_div_floor(1u128 << 70, 1u64 << 63, (1u128 << 70) + 1), (1u64 << 63) - 1);
    // 3 * 2^70 * M / (3 * 2^70 + 3) = M - M / (2^70 + 1)
    assert_eq!(mul_div_floor(3u128 << 70, u64::MAX, (3u128 << 70) + 3), u64::MAX - 1);
}

#[test]
fn mul_div_floor_agrees_with_direct_division() {
    let cases: [(u128, u64, u128); 4] = [
        (9_970_000, 1_000_000, 10_009_970_000),
        (1 << 60, 1 << 60, (1 << 60) + 12345),
        (999, 1 << 63, 1000),
        ((1 << 63) - 1, u64::MAX, 1 << 63),
    ];
    for (a, b, c) in cases {
        assert_eq!(mul_div_floor(a, b, c) as u128, a * b as u128 / c);
    }
}

#[test]
fn fee_split_of_a_small_swap() {
    let split = split_fee(1000, 30);
    assert_eq!(split, FeeSplit { total_fee: 3, protocol_fee: 0, lp_fee: 3 });
}

#[test]
fn fee_split_gives_protocol_a_fifth() {
    let split = split_fee(1_000_000, 30);
    assert_eq!(split.total_fee, 3000);
    assert_eq!(split.protocol_fee, 600);
    assert_eq!(split.lp_fee, 2400);
    let odd = split_fee(3_000, 30);
    assert_eq!(odd, FeeSplit { total_fee: 9, protocol_fee: 1, lp_fee: 8 });
}

#[test]
fn fee_split_conserves_the_fee() {
    let amounts: [u64; 6] = [0, 1, 333, 9_999, 1_000_000_007, u64::MAX];
    let rates: [u16; 6] = [0, 1, 30, 2_500, 9_999, 10_000];
    for amount_in in amounts {
        for fee_bps in rates {
            let split = split_fee(amount_in, fee_bps);
            assert_eq!(split.total_fee, split.protocol_fee + split.lp_fee);
            assert_eq!(split.total_fee as u128, amount_in as u128 * fee_bps as u128 / 10_000);
            assert_eq!(split.protocol_fee, split.total_fee / 5);
        }
    }
}

#[test]
fn fee_split_at_the_limits() {
    assert_eq!(split_fee(u64::MAX, 10_000).total_fee, u64::MAX);
    assert_eq!(split_fee(u64::MAX, 0).total_fee, 0);
    assert_eq!(split_fee(9_999, 1).total_fee, 0);
    assert_eq!(split_fee(10_000, 1).total_fee, 1);
}

#[test]
fn error_messages() {
    assert_eq!(AmmError::SlippageExceeded.message(), "Slippage exceeded");
    assert_eq!(AmmError::InvariantViolation.message(), "Invariant violation");
    assert_eq!(AmmError::InsufficientLiquidity.message(), "Insufficient liquidity");
    assert_eq!(AmmError::InvalidAmount.message(), "Invalid amount");
    assert_eq!(AmmError::PoolEmpty.message(), "Pool has no liquidity");
    assert_eq!(AmmError::Overflow.message(), "Math overflow");
}
