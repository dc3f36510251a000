use arb_bot::math::{get_amount_out, get_optimial_arbitrage_amount};
use arb_bot::profit::calculate_net_profit;
use arb_bot::uint::U256;

fn u(x: u64) -> U256 {
    U256::from_u64(x)
}

fn big(x: U256) -> alloy::primitives::U256 {
    alloy::primitives::U256::from_limbs(x.limbs)
}

fn small(x: alloy::primitives::U256) -> U256 {
    U256 { limbs: x.into_limbs() }
}

/// A -> B on pool 1, then B -> A on pool 2.
fn a_round_trip(r1_a: U256, r1_b: U256, r2_a: U256, r2_b: U256, delta_a: U256) -> U256 {
    let b_out = get_amount_out(delta_a, r1_a, r1_b);
    get_amount_out(b_out, r2_b, r2_a)
}

#[test]
fn returns_none_for_zero_reserves() {
    assert!(get_optimial_arbitrage_amount(u(0), u(1_000), u(1_000), u(1_000)).is_none());
}

#[test]
fn returns_none_when_pools_are_balanced() {
    assert!(get_optimial_arbitrage_amount(u(1_000), u(1_000), u(1_000), u(1_000)).is_none());
}

#[test]
fn returns_profitable_size_when_pool1_overprices_a() {
    // Pool 1: A is rich in B (sell A here). Pool 2: cheaper A.
    let r1_a = u(1_000);
    let r1_b = u(1_200);
    let r2_a = u(1_000);
    let r2_b = u(1_000);

    let delta = get_optimial_arbitrage_amount(r1_a, r1_b, r2_a, r2_b)
        .expect("mispriced pools should yield an arb size");

    assert!(big(delta) > alloy::primitives::U256::ZERO);

    let a_back = a_round_trip(r1_a, r1_b, r2_a, r2_b, delta);
    assert!(big(a_back) > big(delta), "round trip should return more A than input");

    // Near-optimal: beat slightly smaller and slightly larger sizes.
    if big(delta) > alloy::primitives::U256::ONE {
        let one = alloy::primitives::U256::ONE;
        let below = small(big(delta) - one);
        let above = small(big(delta) + one);
        let profit_at_delta = big(a_back) - big(delta);
        let profit_below = big(a_round_trip(r1_a, r1_b, r2_a, r2_b, below)) - big(below);
        let profit_above = big(a_round_trip(r1_a, r1_b, r2_a, r2_b, above)) - big(above);
        assert!(profit_at_delta >= profit_below);
        assert!(profit_at_delta >= profit_above);
    }
}

#[test]
fn amount_out_follows_constant_product() {
    assert_eq!(get_amount_out(u(1_000), u(1_000), u(1_000)), u(499));
    let r_in = U256::from_u128(500_000_000_000_000_000_000);
    let r_out = U256::from_u128(1_000_000_000_000_000_000_000);
    assert_eq!(
        get_amount_out(u(1_000_000_000_000_000_000), r_in, r_out),
        u(1_990_031_876_438_381_866)
    );
}

#[test]
fn amount_out_is_zero_for_zero_inputs() {
    assert_eq!(get_amount_out(u(0), u(1_000), u(1_000)), u(0));
    assert_eq!(get_amount_out(u(1_000), u(0), u(1_000)), u(0));
    assert_eq!(get_amount_out(u(1_000), u(1_000), u(0)), u(0));
}

#[test]
fn amount_out_stays_below_reserve_for_112_bit_inputs() {
    let max112 = small((alloy::primitives::U256::ONE << 112) - alloy::primitives::U256::ONE);
    let out = get_amount_out(max112, u(1), max112);
    assert!(big(out) < big(max112));
}

#[test]
fn optimal_amount_exact_value() {
    assert_eq!(get_optimial_arbitrage_amount(u(1_000), u(1_200), u(1_000), u(1_000)), Some(u(42)));
    let e18 = 1_000_000_000_000_000_000u64;
    assert_eq!(
        get_optimial_arbitrage_amount(u(e18), u(2 * e18), u(e18), u(e18)),
        Some(u(137_342_864_158_934_975))
    );
}

#[test]
fn optimal_amount_only_in_the_overpriced_direction() {
    let e18 = 1_000_000_000_000_000_000u64;
    assert!(get_optimial_arbitrage_amount(u(e18), u(2 * e18), u(e18), u(e18)).is_some());
    assert!(get_optimial_arbitrage_amount(u(e18), u(e18), u(e18), u(2 * e18)).is_none());
}

#[test]
fn optimal_amount_none_when_reserves_overflow() {
    let huge = small(alloy::primitives::U256::MAX);
    assert!(get_optimial_arbitrage_amount(u(1), huge, huge, u(1)).is_none());
}

#[test]
fn net_profit_exact_value() {
    let e18 = 1_000_000_000_000_000_000u64;
    let r = calculate_net_profit(
        u(137_342_864_158_934_975),
        u(e18),
        u(2 * e18),
        u(e18),
        u(e18),
        u(140_000),
        u(25_000_000_000),
    );
    assert_eq!(r, Some(u(52_806_580_606_230_338)));
}

#[test]
fn net_profit_none_for_zero_amount() {
    assert_eq!(calculate_net_profit(u(0), u(1_000), u(1_200), u(1_000), u(1_000), u(0), u(0)), None);
}

#[test]
fn net_profit_none_when_round_trip_loses() {
    assert_eq!(
        calculate_net_profit(u(100), u(1_000), u(1_000), u(1_000), u(1_000), u(0), u(0)),
        None
    );
}

#[test]
fn net_profit_none_when_gas_eats_the_gain() {
    let e18 = 1_000_000_000_000_000_000u64;
    let r = calculate_net_profit(
        u(137_342_864_158_934_975),
        u(e18),
        u(2 * e18),
        u(e18),
        u(e18),
        u(56_306_580_606_230_338),
        u(1),
    );
    assert_eq!(r, None);
    let r = calculate_net_profit(
        u(137_342_864_158_934_975),
        u(e18),
        u(2 * e18),
        u(e18),
        u(e18),
        u(56_306_580_606_230_337),
        u(1),
    );
    assert_eq!(r, Some(u(1)));
}

#[test]
fn u256_conversions_round_trip() {
    let x = U256::from_u128(u128::MAX - 5);
    assert_eq!(x.to_u128(), u128::MAX - 5);
    assert_eq!(big(x), alloy::primitives::U256::from(u128::MAX - 5));
    assert_eq!(x.widen().narrow(), x);
    assert_eq!(U256::zero(), u(0));
    assert_eq!(U256::one(), u(1));
}

#[test]
fn optimal_amount_can_round_down_to_zero() {
    // A barely mispriced pair: a size exists but rounds down to zero, and a
    // zero-size trip has no profit.
    assert_eq!(get_optimial_arbitrage_amount(u(1_000), u(1_007), u(1_000), u(1_000)), Some(u(0)));
    assert_eq!(calculate_net_profit(u(0), u(1_000), u(1_007), u(1_000), u(1_000), u(0), u(0)), None);
}

#[test]
fn optimal_amount_is_within_two_of_the_real_maximiser() {
    // d = 42 for r1 = (1000, 1200), r2 = (1000, 1000):
    // (42·M + 10⁶·K)² <= 10⁶·C·K < (44·M + 10⁶·K)².
    let (r1_a, r1_b, r2_a, r2_b) = (1_000u128, 1_200u128, 1_000u128, 1_000u128);
    let d = 42u128;
    let c = r1_b * r2_a * 997 * 997;
    let k = r1_a * r2_b;
    let m = 997 * (1_000 * r2_b + 997 * r1_b);
    let x = alloy::primitives::U256::from(1_000_000u128 * c) * alloy::primitives::U256::from(k);
    let lo = alloy::primitives::U256::from(d * m + 1_000_000 * k);
    let hi = alloy::primitives::U256::from((d + 2) * m + 1_000_000 * k);
    assert!(lo * lo <= x);
    assert!(x < hi * hi);
}

#[test]
fn amount_out_grows_with_the_input() {
    let mut last = 0u128;
    for a in [0u64, 1, 10, 1_000, 1_001, 50_000, 1_000_000] {
        let out = get_amount_out(u(a), u(1_000_000), u(2_000_000)).to_u128();
        assert!(out >= last);
        last = out;
    }
}
