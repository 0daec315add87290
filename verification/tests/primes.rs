use primenav::{is_prime_mr, next_prime, previous_prime, prime_factors, primes};

/// Primality by exhaustive trial division, the reference for the sampled
/// checks below.
fn is_prime_naive(n: u64) -> bool {
    if n < 2 {
        return false;
    }
    let mut d: u64 = 2;
    while d * d <= n {
        if n % d == 0 {
            return false;
        }
        d += 1;
    }
    true
}

#[test]
fn is_prime_mr_works() {
    assert_eq!(is_prime_mr(0), false);
    assert_eq!(is_prime_mr(1), false);
    assert_eq!(is_prime_mr(2), true);
    assert_eq!(is_prime_mr(3), true);
    assert_eq!(is_prime_mr(4), false);
    assert_eq!(is_prime_mr(5), true);
    assert_eq!(is_prime_mr(6), false);
    assert_eq!(is_prime_mr(7), true);
    assert_eq!(is_prime_mr(8), false);
    assert_eq!(is_prime_mr(9), false);
    assert_eq!(is_prime_mr(10), false);
    assert_eq!(is_prime_mr(11), true);
}

#[test]
fn next_prime_works() {
    assert_eq!(next_prime(11), 11);
    assert_eq!(next_prime(12), 13);
    assert_eq!(next_prime(2_047), 2_053);
    assert_eq!(next_prime(1_373_653), 1_373_677);
}

#[test]
fn previous_prime_works() {
    assert_eq!(previous_prime(0), 0);
    assert_eq!(previous_prime(1), 0);
    assert_eq!(previous_prime(2), 2);
    assert_eq!(previous_prime(3), 3);
    assert_eq!(previous_prime(4), 3);
    assert_eq!(previous_prime(5), 5);
    assert_eq!(previous_prime(6), 5);
    assert_eq!(previous_prime(7), 7);
    assert_eq!(previous_prime(17), 17);
    assert_eq!(previous_prime(18), 17);
    assert_eq!(previous_prime(26), 23);
}

#[test]
fn prime_factors_works() {
    assert_eq!(prime_factors(0), vec![]);
    assert_eq!(prime_factors(1), vec![]);
    assert_eq!(prime_factors(2), vec![(2, 1)]);
    assert_eq!(prime_factors(2 * 2 * 7 * 13), vec![(2, 2), (7, 1), (13, 1)]);
    assert_eq!(
        prime_factors(37 * 37 * 37 * 7 * 13),
        vec![(7, 1), (13, 1), (37, 3)]
    );
}

#[test]
fn iterator_works() {
    let mut it = primes(0);
    let mut first_four: Vec<u64> = Vec::new();
    for _ in 0..4 {
        first_four.push(it.next().unwrap());
    }
    assert_eq!(first_four, vec![2, 3, 5, 7]);

    let mut it = primes(0);
    let mut above_thousand: u64 = 0;
    loop {
        let p = it.next().unwrap();
        if p > 1000 {
            above_thousand = p;
            break;
        }
    }
    assert_eq!(above_thousand, 1009);

    let mut it = primes(0);
    let mut ten_thousandth: u64 = 0;
    for _ in 0..10_000 {
        ten_thousandth = it.next().unwrap();
    }
    assert_eq!(ten_thousandth, 104_729);
}

#[test]
fn oracle_matches_trial_division() {
    for n in 0..=10_000u64 {
        assert_eq!(is_prime_mr(n), is_prime_naive(n), "verdict differs at {}", n);
    }
}

#[test]
fn next_prime_is_minimal() {
    for x in 0..=2_000u64 {
        let r = next_prime(x);
        assert!(is_prime_naive(r), "next_prime({}) = {} not prime", x, r);
        assert!(r >= x);
        for q in x..r {
            assert!(!is_prime_naive(q), "prime {} skipped by next_prime({})", q, x);
        }
    }
    assert_eq!(next_prime(104_718), 104_723);
}

#[test]
fn previous_prime_is_maximal() {
    assert_eq!(previous_prime(0), 0);
    assert_eq!(previous_prime(1), 0);
    for x in 2..=2_000u64 {
        let r = previous_prime(x);
        assert!(is_prime_naive(r), "previous_prime({}) = {} not prime", x, r);
        assert!(r <= x);
        for q in (r + 1)..=x {
            assert!(
                !is_prime_naive(q),
                "prime {} skipped by previous_prime({})",
                q,
                x
            );
        }
    }
}

#[test]
fn factor_product_reconstructs() {
    for x in 2..=2_000u64 {
        let fs = prime_factors(x);
        let mut prod: u64 = 1;
        let mut last: u64 = 0;
        for &(p, e) in fs.iter() {
            assert!(p > last, "bases not ascending for {}", x);
            assert!(e >= 1);
            assert!(is_prime_naive(p), "base {} of {} not prime", p, x);
            last = p;
            prod *= p.pow(e);
        }
        assert_eq!(prod, x);
    }
    // one large prime cofactor exercises the early exit
    let big = prime_factors(2 * 4_294_967_291);
    assert_eq!(big, vec![(2, 1), (4_294_967_291, 1)]);
}

#[test]
fn refactorization_is_stable() {
    for x in [2u64, 12, 36, 97, 360, 1024, 1963, 2 * 2 * 7 * 13, 104_729] {
        let fs = prime_factors(x);
        let mut prod: u64 = 1;
        for &(p, e) in fs.iter() {
            prod *= p.pow(e);
        }
        assert_eq!(prime_factors(prod), fs);
    }
}

#[test]
fn iterator_stops_at_range_top() {
    let mut it = primes(u64::MAX);
    assert_eq!(it.next(), None);
    let mut it = primes(u64::MAX - 1);
    assert_eq!(it.next(), None);
}

#[test]
fn witness_table_thresholds() {
    // the first threshold itself is composite (2047 = 23 * 89) and is judged
    // by the second witness row
    assert_eq!(is_prime_mr(2_047), false);
    assert_eq!(is_prime_mr(2_053), true);
    // around the second threshold
    assert_eq!(is_prime_mr(1_373_653), false);
    assert_eq!(is_prime_mr(1_373_677), true);
    // a prime beyond the third threshold
    assert_eq!(is_prime_mr(25_326_023), true);
    assert_eq!(is_prime_mr(25_326_025), false);
}
