use prime_slot_checker::math_utils::{
    is_prime, is_prime_by_trial_division, miller_rabin_test, mod_exp, mul_mod,
};

#[test]
fn mod_exp_small_values() {
    assert_eq!(mod_exp(2, 10, 1000), 24);
    assert_eq!(mod_exp(3, 200, 13), 9);
    assert_eq!(mod_exp(7, 560, 561), 1);
    assert_eq!(mod_exp(5, 0, 7), 1);
    assert_eq!(mod_exp(0, 5, 7), 0);
    assert_eq!(mod_exp(0, 0, 7), 1);
}

#[test]
fn mod_exp_modulus_one_is_zero() {
    assert_eq!(mod_exp(5, 0, 1), 0);
    assert_eq!(mod_exp(5, 3, 1), 0);
}

#[test]
fn mod_exp_is_exact_near_the_top_of_the_range() {
    assert_eq!(
        mod_exp(0xFFFF_FFFF_FFFF_FFF0, 0xFFFF_FFFF_FFFF_FFFF, 0xFFFF_FFFF_FFFF_FFC5),
        11148991613349353336
    );
    assert_eq!(
        mod_exp(123456789012345678, 987654321, 18446744073709551557),
        17525735957457632260
    );
}

#[test]
fn mul_mod_widens_the_product() {
    assert_eq!(mul_mod(u64::MAX, u64::MAX, u64::MAX), 0);
    assert_eq!(mul_mod(u64::MAX - 1, u64::MAX - 1, u64::MAX), 1);
    assert_eq!(mul_mod(6, 7, 10), 2);
}

#[test]
fn is_prime_decides_small_numbers_exactly() {
    for time in [0i64, 1, 48, 1_700_000_000, -1, i64::MIN, i64::MAX] {
        assert!(!is_prime(0, 5, time));
        assert!(!is_prime(1, 5, time));
        assert!(is_prime(2, 5, time));
        assert!(is_prime(3, 5, time));
        assert!(!is_prime(4, 5, time));
        assert!(!is_prime(6, 5, time));
        assert!(!is_prime(9, 5, time));
        assert!(!is_prime(u64::MAX, 5, time));
    }
}

#[test]
fn is_prime_rejects_every_even_number_above_two() {
    let mut n: u64 = 4;
    while n < 2000 {
        assert!(!is_prime(n, 5, 12345));
        assert!(!is_prime(n, 0, 12345));
        n += 2;
    }
}

#[test]
fn is_prime_accepts_seventeen() {
    for time in 0..200i64 {
        assert!(is_prime(17, 5, time));
    }
    assert!(is_prime(17, 5, -1));
}

#[test]
fn is_prime_never_rejects_a_prime() {
    for n in 5..3000u64 {
        if is_prime_by_trial_division(n) {
            for time in [0i64, 1, 2, 7, 48, 99, 1000, 1_700_000_000, -3] {
                assert!(is_prime(n, 5, time), "{} at {}", n, time);
            }
        }
    }
}

#[test]
fn is_prime_accepts_large_primes() {
    assert!(is_prime(2305843009213693951, 5, 12345));
    assert!(is_prime(18446744073709551557, 5, 77));
    assert!(is_prime(18446744073709551557, 5, 99));
}

// The witness comes from the time, not from chance: where it happens to be a
// strong liar, the oracle takes a composite number for a prime.
#[test]
fn is_prime_can_take_a_composite_number_for_a_prime() {
    // 1105 = 5 * 13 * 17 is a Carmichael number
    assert!(!is_prime_by_trial_division(1105));
    assert!(is_prime(1105, 1, 45));
    assert!(is_prime(1105, 5, 45));
    assert!(is_prime(1105, 5, 70));
    assert!(!is_prime(1105, 1, 0));
    assert!(!is_prime(1105, 5, 44));
    // 25: the witness 7 squares to -1
    assert!(!is_prime_by_trial_division(25));
    assert!(is_prime(25, 5, 5));
    assert!(!is_prime(25, 5, 0));
}

// 561 = 3 * 11 * 17 is a Carmichael number too, and a round on it accepts
// the witness 50. The oracle never gets that far: it sieves multiples of 3.
#[test]
fn is_prime_rejects_561_whatever_the_witness() {
    assert!(!is_prime_by_trial_division(561));
    assert!(miller_rabin_test(35, 561, 48));
    for time in 0..558i64 {
        assert!(!is_prime(561, 1, time));
        assert!(!is_prime(561, 5, time));
    }
    assert!(!is_prime(561, 0, 48));
}

#[test]
fn is_prime_with_no_rounds_only_sieves() {
    assert!(is_prime(25, 0, 0));
    assert!(is_prime(561 * 5 + 2, 0, 0));
    assert!(!is_prime(27, 0, 0));
}

#[test]
fn miller_rabin_round_follows_the_witness() {
    // 560 = 35 * 2^4
    let liars: [i64; 8] = [48, 99, 101, 254, 303, 456, 458, 509];
    for time in 0..558i64 {
        assert_eq!(miller_rabin_test(35, 561, time), liars.contains(&time));
    }
    // 16 = 1 * 2^4; any stage of the doubling may be handed in
    assert!(miller_rabin_test(1, 17, 0));
    assert!(miller_rabin_test(4, 17, 0));
    assert!(miller_rabin_test(16, 17, 0));
    // 4 - 1 = 3, the witness is always 2, and 2^3 = 0 (mod 4)
    assert!(!miller_rabin_test(3, 4, 0));
}

#[test]
fn miller_rabin_round_reads_negative_time_as_unsigned() {
    // -1 reads as 2^64 - 1, which is 1 modulo 14: the witness is 3
    assert!(miller_rabin_test(1, 17, -1));
    // and 15 modulo 558
    assert_eq!(miller_rabin_test(35, 561, -1), miller_rabin_test(35, 561, 15));
    assert_eq!(miller_rabin_test(35, 561, 48 - 558), miller_rabin_test(35, 561, 48 + 16));
}

#[test]
fn trial_division_is_exact() {
    let primes: [u64; 25] = [
        2, 3, 5, 7, 11, 13, 17, 19, 23, 29, 31, 37, 41, 43, 47, 53, 59, 61, 67, 71, 73, 79, 83,
        89, 97,
    ];
    for n in 0..100u64 {
        assert_eq!(is_prime_by_trial_division(n), primes.contains(&n), "{}", n);
    }
    assert!(!is_prime_by_trial_division(561));
    assert!(!is_prime_by_trial_division(1105));
    assert!(is_prime_by_trial_division(4294967291));
    assert!(!is_prime_by_trial_division(1000003 * 1000033));
    assert!(!is_prime_by_trial_division(4294967297));
}

#[test]
fn trial_division_at_the_top_of_the_range() {
    assert!(!is_prime_by_trial_division(u64::MAX));
    assert!(!is_prime_by_trial_division(u64::MAX - 1));
    assert!(!is_prime_by_trial_division(18446744073709551557 - 2));
}
