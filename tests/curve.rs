use stable_swap::curve::{PoolTokenConverter, StableSwap};
use stable_swap::error::SwapError;

const FEE_NUMERATOR: u128 = 25;
const FEE_DENOMINATOR: u128 = 10_000;

fn check_pool_token_a_rate(
    token_a: u128,
    token_b: u128,
    deposit: u128,
    supply: u128,
    expected: Option<u128>,
) {
    let calculator = PoolTokenConverter::new(supply, token_a, token_b);
    assert_eq!(calculator.token_a_rate(deposit), expected);
    assert_eq!(calculator.supply, supply);
}

#[test]
fn issued_tokens() {
    check_pool_token_a_rate(2, 50, 5, 10, Some(1));
    check_pool_token_a_rate(10, 10, 5, 10, Some(5));
    check_pool_token_a_rate(5, 100, 5, 10, Some(2));
    check_pool_token_a_rate(5, u128::MAX, 5, 10, Some(2));
    check_pool_token_a_rate(u128::MAX, u128::MAX, 5, 10, None);
}

#[test]
fn token_b_rate_floors_the_share() {
    let calculator = PoolTokenConverter::new(10, 5, 100);
    assert_eq!(calculator.token_b_rate(5), Some(50));
    assert_eq!(calculator.token_b_rate(3), Some(30));
    let calculator = PoolTokenConverter::new(7, 5, 10);
    assert_eq!(calculator.token_b_rate(3), Some(4));
    assert_eq!(calculator.token_a_rate(3), Some(2));
}

#[test]
fn rates_with_zero_supply_are_absent() {
    let calculator = PoolTokenConverter::new(0, 5, 100);
    assert_eq!(calculator.token_a_rate(5), None);
    assert_eq!(calculator.token_b_rate(5), None);
}

#[test]
fn rates_of_a_balanced_converter_are_identity() {
    let calculator = PoolTokenConverter::new(1_000, 1_000, 1_000);
    for p in [0u128, 1, 37, 999, 1_000, 123_456] {
        assert_eq!(calculator.token_a_rate(p), Some(p));
        assert_eq!(calculator.token_b_rate(p), Some(p));
    }
}

#[test]
fn rate_scenario_with_maximal_reserves() {
    let calculator = PoolTokenConverter::new(10, 5, 100);
    assert_eq!(calculator.token_a_rate(5), Some(2));
    let calculator = PoolTokenConverter::new(10, u128::MAX, u128::MAX);
    assert_eq!(calculator.token_a_rate(5), None);
    assert_eq!(calculator.token_b_rate(5), None);
}

#[test]
fn new_rejects_zero_amplification() {
    assert_eq!(StableSwap::new(0).err(), Some(SwapError::InvalidAmpFactor));
    let swap = StableSwap::new(85).ok().unwrap();
    assert_eq!(swap.amp_factor, 85);
}

#[test]
fn d_of_an_empty_pool_is_zero() {
    for amp_factor in [1u128, 100, 10_000] {
        let swap = StableSwap { amp_factor };
        assert_eq!(swap.compute_d(0, 0), 0);
        assert_eq!(swap.checked_compute_d(0, 0), Some(0));
    }
}

#[test]
fn d_of_a_balanced_pool_is_the_sum() {
    let swap = StableSwap { amp_factor: 100 };
    assert_eq!(swap.compute_d(1_000_000_000, 1_000_000_000), 2_000_000_000);
    for amp_factor in [1u128, 7, 1_000, 10_000] {
        let swap = StableSwap { amp_factor };
        for x in [1u128, 2, 999, 10_000_000_000] {
            assert_eq!(swap.compute_d(x, x), 2 * x);
        }
    }
}

#[test]
fn d_of_an_unbalanced_pool_lies_between_bounds() {
    let swap = StableSwap { amp_factor: 100 };
    let d = swap.compute_d(3_000_000_000, 1_000_000_000);
    assert!(d >= 2_000_000_000);
    assert!(d <= 4_000_000_000);
}

#[test]
fn d_of_a_one_sided_pool_is_absent() {
    let swap = StableSwap { amp_factor: 10 };
    assert_eq!(swap.checked_compute_d(0, 1_000), None);
    assert_eq!(swap.checked_compute_d(1_000, 0), None);
}

#[test]
fn d_that_overflows_is_absent() {
    let swap = StableSwap { amp_factor: 10 };
    assert_eq!(swap.checked_compute_d(u128::MAX, 1), None);
    assert_eq!(swap.checked_compute_d(u128::MAX / 2, u128::MAX / 2), None);
    let swap = StableSwap { amp_factor: 0 };
    assert_eq!(swap.checked_compute_d(5, 5), None);
}

#[test]
fn y_recovers_the_other_reserve() {
    for amp_factor in [1u128, 100, 1_000] {
        let swap = StableSwap { amp_factor };
        for (a, b) in [
            (1_000_000_000u128, 1_000_000_000u128),
            (3_000_000_000, 1_000_000_000),
            (1_000_000_000, 3_000_000_000),
        ] {
            let d = swap.compute_d(a, b);
            let y = swap.compute_y(a, d);
            assert!(y + 1 >= b && y <= b + 1, "y = {} for b = {}", y, b);
            let x = swap.compute_y(b, d);
            assert!(x + 1 >= a && x <= a + 1, "x = {} for a = {}", x, a);
        }
    }
}

#[test]
fn y_does_not_grow_with_x() {
    let swap = StableSwap { amp_factor: 100 };
    let d = swap.compute_d(1_000_000_000, 1_000_000_000);
    let mut previous = swap.compute_y(1, d);
    for x in [1_000u128, 1_000_000, 500_000_000, 1_000_000_000, 1_500_000_000] {
        let y = swap.compute_y(x, d);
        assert!(previous + 1 >= y);
        previous = y;
    }
}

#[test]
fn y_with_zero_reserve_is_absent() {
    let swap = StableSwap { amp_factor: 100 };
    assert_eq!(swap.checked_compute_y(0, 2_000), None);
    let swap = StableSwap { amp_factor: 0 };
    assert_eq!(swap.checked_compute_y(1_000, 2_000), None);
}

fn check_swap(amp_factor: u128, source: u128, pool_source: u128, pool_destination: u128) -> u128 {
    let swap = StableSwap { amp_factor };
    let result = swap
        .swap_to(source, pool_source, pool_destination, FEE_NUMERATOR, FEE_DENOMINATOR)
        .unwrap();
    assert_eq!(result.new_source_amount, pool_source + source);
    assert_eq!(result.new_destination_amount, pool_destination - result.amount_swapped);
    assert!(result.amount_swapped <= pool_destination);
    result.amount_swapped
}

#[test]
fn swap_with_low_amplification() {
    let out = check_swap(1, 10_000_000_000, 50_000_000_000, 50_000_000_000);
    assert!(out < 10_000_000_000);
    assert!(out > 0);
}

#[test]
fn higher_amplification_gives_more_output() {
    let low = check_swap(1, 10_000_000_000, 50_000_000_000, 50_000_000_000);
    let high = check_swap(100, 10_000_000_000, 50_000_000_000, 50_000_000_000);
    assert!(high > low);
    let mut previous = low;
    for amp_factor in [10u128, 100, 1_000, 10_000] {
        let out = check_swap(amp_factor, 10_000_000_000, 50_000_000_000, 50_000_000_000);
        assert!(out >= previous);
        assert!(out < 10_000_000_000);
        previous = out;
    }
}

#[test]
fn swap_accounts_for_gross_output_and_fee() {
    let swap = StableSwap { amp_factor: 10 };
    let (input, src, dst) = (10_000_000_000u128, 50_000_000_000u128, 50_000_000_000u128);
    let d = swap.compute_d(src, dst);
    let gross = dst - swap.compute_y(src + input, d);
    let fee = gross * FEE_NUMERATOR / FEE_DENOMINATOR;
    let result = swap.swap_to(input, src, dst, FEE_NUMERATOR, FEE_DENOMINATOR).unwrap();
    assert_eq!(result.amount_swapped + fee, gross);
    assert_eq!(result.new_source_amount + gross, src + input + (dst - result.new_destination_amount) + fee);
    let free = swap.swap_to(input, src, dst, 0, FEE_DENOMINATOR).unwrap();
    assert_eq!(free.amount_swapped, gross);
    assert_eq!(free.new_source_amount + gross, src + input + dst - free.new_destination_amount);
}

#[test]
fn larger_fee_never_gives_more_output() {
    let swap = StableSwap { amp_factor: 100 };
    let mut previous = u128::MAX;
    for numerator in [0u128, 1, 25, 100, 5_000, 10_000] {
        let out = swap
            .swap_to(1_000_000, 5_000_000, 7_000_000, numerator, FEE_DENOMINATOR)
            .unwrap()
            .amount_swapped;
        assert!(out <= previous);
        previous = out;
    }
    assert_eq!(previous, 0);
}

#[test]
fn swap_at_word_max_is_absent() {
    let swap = StableSwap { amp_factor: 100 };
    assert!(swap.swap_to(u128::MAX, 1_000, 1_000, 25, 10_000).is_none());
    assert!(swap.swap_to(1_000, u128::MAX, 1_000, 25, 10_000).is_none());
    assert!(swap.swap_to(1_000, 1_000, u128::MAX, 25, 10_000).is_none());
}

#[test]
fn swap_with_bad_fee_is_absent() {
    let swap = StableSwap { amp_factor: 100 };
    assert!(swap.swap_to(1_000_000, 5_000_000, 5_000_000, 25, 0).is_none());
    assert!(swap.swap_to(1_000_000, 5_000_000, 5_000_000, 20_000, 10_000).is_none());
}

#[test]
fn withdraw_one_from_a_tiny_pool() {
    let swap = StableSwap { amp_factor: 1 };
    let (dy, dy_fee) = swap.compute_withdraw_one(1, 2, 1, 1, 25, 10_000).unwrap();
    assert!(dy <= 1);
    assert_eq!((dy, dy_fee), (1, 0));
}

#[test]
fn withdraw_one_from_a_balanced_pool() {
    let swap = StableSwap { amp_factor: 1 };
    let (dy, dy_fee) = swap
        .compute_withdraw_one(10_000, 200_000, 1_000_000, 1_000_000, 25, 10_000)
        .unwrap();
    assert!(dy > 0);
    assert!(dy + dy_fee <= 100_000);
}

#[test]
fn withdraw_one_with_zero_supply_or_denominator_is_absent() {
    let swap = StableSwap { amp_factor: 10 };
    assert_eq!(swap.compute_withdraw_one(10, 0, 1_000, 1_000, 25, 10_000), None);
    assert_eq!(swap.compute_withdraw_one(10, 100, 1_000, 1_000, 25, 0), None);
    assert_eq!(swap.compute_withdraw_one(200, 100, 1_000, 1_000, 25, 10_000), None);
}

#[test]
fn test_curve_math() {
    let swap = StableSwap { amp_factor: 1 };
    assert_eq!(swap.compute_d(0, 0), 0);

    let amount_a: u128 = 1_000_000_000;
    let amount_b: u128 = 1_000_000_000;
    for amp_factor in [1u128, 100, 1000] {
        let swap = StableSwap { amp_factor };
        let d = swap.compute_d(amount_a, amount_b);
        assert_eq!(d, amount_a + amount_b);
        let mut previous = u128::MAX;
        for x in [1u128, 1000, amount_a] {
            let y = swap.checked_compute_y(x, d).unwrap();
            assert!(y <= previous);
            previous = y;
        }
        let y = swap.compute_y(amount_a, d);
        assert!(y + 1 >= amount_b && y <= amount_b + 1);
    }
}

#[test]
fn test_swap_calculation() {
    let source_amount: u128 = 10_000_000_000;
    let swap_source_amount: u128 = 50_000_000_000;
    let swap_destination_amount: u128 = 50_000_000_000;

    for amp_factor in [1u128, 10, 100, 1000, 10000] {
        check_swap(amp_factor, source_amount, swap_source_amount, swap_destination_amount);
    }
}
