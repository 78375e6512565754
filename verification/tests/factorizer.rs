use factorr::factorizer::{factor, FactorError};

fn is_prime(n: u128) -> bool {
    if n < 2 {
        return false;
    }
    let mut d: u128 = 2;
    while d * d <= n {
        if n % d == 0 {
            return false;
        }
        d += 1;
    }
    true
}

fn product(factors: &[u128]) -> u128 {
    let mut total: u128 = 1;
    for f in factors {
        total *= *f;
    }
    total
}

#[test]
fn one_has_no_factors() {
    assert_eq!(factor(1), Ok(vec![]));
}

#[test]
fn zero_is_rejected() {
    assert_eq!(factor(0), Err(FactorError::InvalidInput));
}

#[test]
fn two_is_its_own_factor() {
    assert_eq!(factor(2), Ok(vec![2]));
}

#[test]
fn twelve() {
    assert_eq!(factor(12), Ok(vec![2, 2, 3]));
}

#[test]
fn three_hundred_sixty() {
    assert_eq!(factor(360), Ok(vec![2, 2, 2, 3, 3, 5]));
}

#[test]
fn primes_factor_to_themselves() {
    let primes: [u128; 8] = [2, 3, 5, 7, 127, 7919, 104729, 2147483647];
    for p in primes {
        assert_eq!(factor(p), Ok(vec![p]));
    }
}

#[test]
fn semiprime() {
    assert_eq!(factor(581), Ok(vec![7, 83]));
}

#[test]
fn square_of_a_prime() {
    assert_eq!(factor(49), Ok(vec![7, 7]));
    assert_eq!(factor(104729 * 104729), Ok(vec![104729, 104729]));
}

#[test]
fn power_of_two() {
    let n: u128 = 1 << 127;
    assert_eq!(factor(n), Ok(vec![2; 127]));
}

#[test]
fn largest_64_bit_number() {
    let n: u128 = u64::MAX as u128;
    assert_eq!(factor(n), Ok(vec![3, 5, 17, 257, 641, 65537, 6700417]));
}

#[test]
fn largest_number() {
    assert_eq!(
        factor(u128::MAX),
        Ok(vec![3, 5, 17, 257, 641, 65537, 274177, 6700417, 67280421310721])
    );
}

#[test]
fn factors_multiply_back_and_are_prime() {
    let mut n: u128 = 2;
    while n <= 3000 {
        let factors = factor(n).unwrap();
        assert!(!factors.is_empty());
        assert_eq!(product(&factors), n);
        for f in &factors {
            assert!(is_prime(*f), "{} is not prime, in the factors of {}", f, n);
        }
        n += 1;
    }
}

#[test]
fn factors_come_in_ascending_order() {
    let mut n: u128 = 1;
    while n <= 3000 {
        let factors = factor(n).unwrap();
        for pair in factors.windows(2) {
            assert!(pair[0] <= pair[1]);
        }
        n += 1;
    }
}

#[test]
fn refactoring_the_product_gives_the_same_list() {
    let numbers: [u128; 6] = [1, 12, 360, 581, 1001, 600851475143];
    for n in numbers {
        let first = factor(n).unwrap();
        let again = factor(product(&first)).unwrap();
        assert_eq!(first, again);
    }
}

#[test]
fn largest_prime_factor_of_a_long_number() {
    assert_eq!(factor(600851475143), Ok(vec![71, 839, 1471, 6857]));
}
