//! The factorizer: one unsigned integer in, its prime factors out.

use crate::arith::{
    all_at_least, all_prime, ascending, divides, is_prime, lemma_divides_transitive,
    lemma_divisor_bounded, lemma_divisor_of_quotient, lemma_divisor_times_quotient,
    lemma_multiple_is_divisible, lemma_prime_by_square_bound, lemma_prime_divides_entry,
    lemma_prime_divides_prime, lemma_product_of_primes_bounds, lemma_quotient_divides,
    no_divisor_below, product,
};
use vstd::arithmetic::div_mod::{lemma_div_by_self, lemma_div_multiples_vanish, lemma_mod_self_0};
use vstd::arithmetic::mul::lemma_mul_is_commutative;
use vstd::prelude::*;

verus! {

/// Why a number could not be factored.
#[derive(Debug, Clone, Copy, PartialEq, Eq, Structural)]
pub enum FactorError {
    /// Zero has no prime factorization.
    InvalidInput,
}

/// The factors that trial division finds in `n` when it starts at the
/// candidate `d`: each candidate is divided out for as long as it divides the
/// remaining quotient, then the next candidate is tried.
pub open spec fn trial_factors(n: nat, d: nat) -> Seq<nat>
    decreases n, n - d,
    via trial_factors_terminates
{
    if n <= 1 || d < 2 || d > n {
        Seq::empty()
    } else if n % d == 0 {
        seq![d] + trial_factors(n / d, d)
    } else {
        trial_factors(n, d + 1)
    }
}

#[via_fn]
proof fn trial_factors_terminates(n: nat, d: nat) {
    if d == n && n >= 2 {
        lemma_mod_self_0(n as int);
    }
    if 2 <= d <= n && n % d == 0 {
        assert(n / d < n) by (nonlinear_arith)
            requires
                2 <= d <= n,
        ;
    }
}

/// The prime factors of `n` with multiplicity, smallest first.
pub open spec fn prime_factors(n: nat) -> Seq<nat> {
    trial_factors(n, 2)
}

/// A sequence of machine integers read as natural numbers.
pub open spec fn values(s: Seq<u128>) -> Seq<nat> {
    s.map_values(|x: u128| x as nat)
}

/// What trial division yields once every candidate below `d` has been ruled
/// out: a non-decreasing list of primes, none below `d`, whose product is `n`.
pub proof fn lemma_trial_factors(n: nat, d: nat)
    requires
        n >= 1,
        d >= 2,
        no_divisor_below(n, d),
    ensures
        product(trial_factors(n, d)) == n,
        all_prime(trial_factors(n, d)),
        ascending(trial_factors(n, d)),
        all_at_least(trial_factors(n, d), d),
    decreases n, n - d,
{
    let found = trial_factors(n, d);
    if n == 1 {
        assert(product(found) == 1);
    } else if d > n {
        lemma_mod_self_0(n as int);
        assert(divides(n, n));
    } else if n % d == 0 {
        let q = n / d;
        let rest = trial_factors(q, d);
        lemma_quotient_divides(d, n);
        lemma_divisor_times_quotient(d, n);
        assert(q < n) by (nonlinear_arith)
            requires
                d * q == n,
                d >= 2,
                q >= 1,
        ;
        assert forall|k: nat| 2 <= k < d implies !divides(k, q) by {
            if divides(k, q) {
                lemma_divisor_of_quotient(k, d, n);
            }
        }
        assert forall|k: nat| 2 <= k < d implies !divides(k, d) by {
            if divides(k, d) {
                lemma_divides_transitive(k, d, n);
            }
        }
        assert(is_prime(d));
        lemma_trial_factors(q, d);
        assert(found =~= seq![d] + rest);
        assert(found.drop_first() =~= rest);
        assert(found[0] == d);
        assert(product(found) == d * product(rest));
        assert forall|i: int| 0 <= i < found.len() implies is_prime(#[trigger] found[i]) by {
            if i > 0 {
                assert(found[i] == rest[i - 1]);
            }
        }
        assert forall|i: int| 0 <= i < found.len() implies #[trigger] found[i] >= d by {
            if i > 0 {
                assert(found[i] == rest[i - 1]);
            }
        }
        assert forall|i: int, j: int| 0 <= i <= j < found.len() implies found[i] <= found[j] by {
            if i > 0 {
                assert(found[i] == rest[i - 1]);
                assert(found[j] == rest[j - 1]);
            } else if j > 0 {
                assert(found[j] == rest[j - 1]);
            }
        }
    } else {
        if d == n {
            lemma_mod_self_0(n as int);
        }
        assert forall|k: nat| 2 <= k < d + 1 implies !divides(k, n) by {}
        lemma_trial_factors(n, d + 1);
    }
}

/// Trial division of a prime finds the prime itself and nothing else, from
/// whatever candidate it starts.
pub proof fn lemma_trial_factors_of_prime(p: nat, d: nat)
    requires
        is_prime(p),
        2 <= d <= p,
    ensures
        trial_factors(p, d) == seq![p],
    decreases p - d,
{
    if d == p {
        lemma_mod_self_0(p as int);
        lemma_div_by_self(p as int);
        assert(trial_factors(1, d) =~= Seq::<nat>::empty());
        assert(seq![d] + Seq::<nat>::empty() =~= seq![p]);
    } else {
        assert(!divides(d, p));
        lemma_trial_factors_of_prime(p, d + 1);
    }
}

/// The prime factors of any positive number multiply back to it, are all
/// prime, and are listed in non-decreasing order.
pub proof fn lemma_prime_factors(n: nat)
    requires
        n >= 1,
    ensures
        product(prime_factors(n)) == n,
        all_prime(prime_factors(n)),
        ascending(prime_factors(n)),
{
    lemma_trial_factors(n, 2);
}

/// The number 1 has no prime factors.
pub proof fn lemma_prime_factors_of_one()
    ensures
        prime_factors(1) == Seq::<nat>::empty(),
{
}

/// A prime is its own and only prime factor.
pub proof fn lemma_prime_factors_of_prime(p: nat)
    requires
        is_prime(p),
    ensures
        prime_factors(p) == seq![p],
{
    lemma_trial_factors_of_prime(p, 2);
}

/// Every number from 2 up has a prime divisor.
pub proof fn lemma_has_prime_divisor(n: nat) -> (p: nat)
    requires
        n >= 2,
    ensures
        is_prime(p),
        divides(p, n),
{
    lemma_trial_factors(n, 2);
    let found = prime_factors(n);
    let rest = found.drop_first();
    assert(found.len() > 0) by {
        if found.len() == 0 {
            assert(product(found) == 1);
        }
    }
    assert(product(found) == found[0] * product(rest));
    lemma_multiple_is_divisible(found[0], product(rest));
    found[0]
}

/// Trial division finds a non-decreasing list of primes again from their
/// product, when it starts at a candidate that is not above any of them.
pub proof fn lemma_trial_factors_of_product(s: Seq<nat>, d: nat)
    requires
        all_prime(s),
        ascending(s),
        all_at_least(s, d),
        d >= 2,
    ensures
        trial_factors(product(s), d) == s,
    decreases s.len(), (if s.len() > 0 { s[0] - d } else { 0 }),
{
    let n = product(s);
    if s.len() == 0 {
        assert(trial_factors(1, d) =~= s);
    } else {
        let rest = s.drop_first();
        lemma_product_of_primes_bounds(s);
        assert(is_prime(s[0]));
        assert(s[0] >= d);
        if d == s[0] {
            assert(all_prime(rest)) by {
                assert forall|i: int| 0 <= i < rest.len() implies is_prime(#[trigger] rest[i]) by {
                    assert(rest[i] == s[i + 1]);
                }
            }
            assert(ascending(rest)) by {
                assert forall|i: int, j: int| 0 <= i <= j < rest.len() implies rest[i]
                    <= rest[j] by {
                    assert(rest[i] == s[i + 1] && rest[j] == s[j + 1]);
                }
            }
            assert(all_at_least(rest, d)) by {
                assert forall|i: int| 0 <= i < rest.len() implies #[trigger] rest[i] >= d by {
                    assert(rest[i] == s[i + 1]);
                    assert(s[0] <= s[i + 1]);
                }
            }
            lemma_multiple_is_divisible(d, product(rest));
            assert(n == d * product(rest));
            lemma_div_multiples_vanish(product(rest) as int, d as int);
            assert(n / d == product(rest)) by {
                lemma_mul_is_commutative(d as int, product(rest) as int);
            }
            lemma_trial_factors_of_product(rest, d);
            assert(seq![d] + rest =~= s);
        } else {
            if divides(d, n) {
                let q = lemma_has_prime_divisor(d);
                lemma_divides_transitive(q, d, n);
                lemma_prime_divides_entry(q, s);
                let i = choose|i: int| 0 <= i < s.len() && divides(q, #[trigger] s[i]);
                lemma_prime_divides_prime(q, s[i]);
                lemma_divisor_bounded(q, d);
                assert(s[0] <= s[i]);
                assert(!divides(d, n));
            }
            assert forall|i: int| 0 <= i < s.len() implies #[trigger] s[i] >= d + 1 by {
                assert(s[0] <= s[i]);
            }
            lemma_trial_factors_of_product(s, d + 1);
        }
    }
}

/// Prime factorizations are unique: the prime factors of a product of
/// primes, listed in non-decreasing order, are those primes in that order.
pub proof fn lemma_factorization_is_unique(s: Seq<nat>)
    requires
        all_prime(s),
        ascending(s),
    ensures
        prime_factors(product(s)) == s,
{
    assert forall|i: int| 0 <= i < s.len() implies #[trigger] s[i] >= 2 by {
        assert(is_prime(s[i]));
    }
    lemma_trial_factors_of_product(s, 2);
}

/// Factoring is stable: multiplying the prime factors of a positive number
/// and factoring the product gives the same list again, in the same order.
pub proof fn lemma_refactoring_is_stable(n: nat)
    requires
        n >= 1,
    ensures
        prime_factors(product(prime_factors(n))) == prime_factors(n),
{
    lemma_prime_factors(n);
}

/// Factors `num` into primes by trial division.
///
/// The factors come smallest first, each repeated as often as it divides
/// `num`; 1 has none. Zero is rejected.
pub fn factor(num: u128) -> (result: Result<Vec<u128>, FactorError>)
    ensures
        num == 0 <==> result is Err,
        result is Err ==> result == Err::<Vec<u128>, FactorError>(FactorError::InvalidInput),
        result matches Ok(found) ==> {
            &&& values(found@) == prime_factors(num as nat)
            &&& product(values(found@)) == num
            &&& all_prime(values(found@))
            &&& ascending(values(found@))
        },
{
    if num == 0 {
        return Err(FactorError::InvalidInput);
    }
    let mut found: Vec<u128> = Vec::new();
    let mut rest: u128 = num;
    let mut d: u128 = 2;
    proof {
        assert(values(found@) + trial_factors(rest as nat, d as nat) =~= prime_factors(num as nat));
    }
    while d <= rest / d
        invariant
            d >= 2,
            1 <= rest <= num,
            no_divisor_below(rest as nat, d as nat),
            values(found@) + trial_factors(rest as nat, d as nat) == prime_factors(num as nat),
        decreases rest, rest - d,
    {
        proof {
            assert(d <= rest) by (nonlinear_arith)
                requires
                    d <= rest / d,
                    d >= 2,
                    rest >= 1,
            ;
        }
        if rest % d == 0 {
            proof {
                let q = (rest / d) as nat;
                lemma_quotient_divides(d as nat, rest as nat);
                lemma_divisor_times_quotient(d as nat, rest as nat);
                assert(q < rest) by (nonlinear_arith)
                    requires
                        d * q == rest,
                        d >= 2,
                        q >= 1,
                ;
                assert forall|k: nat| 2 <= k < d implies !divides(k, q) by {
                    if divides(k, q) {
                        lemma_divisor_of_quotient(k, d as nat, rest as nat);
                    }
                }
                assert(values(found@.push(d)) + trial_factors(q, d as nat) =~= values(found@)
                    + (seq![d as nat] + trial_factors(q, d as nat)));
            }
            found.push(d);
            rest = rest / d;
        } else {
            proof {
                if d == rest {
                    lemma_mod_self_0(rest as int);
                }
                assert forall|k: nat| 2 <= k < d + 1 implies !divides(k, rest as nat) by {}
            }
            d = d + 1;
        }
    }
    proof {
        let n = rest as nat;
        if n > 1 {
            if d > rest {
                lemma_mod_self_0(n as int);
                assert(divides(n, n));
            }
            assert(d * d > rest) by (nonlinear_arith)
                requires
                    d > rest / d,
                    d >= 2,
            ;
            lemma_prime_by_square_bound(n, d as nat);
            lemma_trial_factors_of_prime(n, d as nat);
            assert(values(found@.push(rest)) =~= values(found@) + seq![n]);
        } else {
            assert(values(found@) + Seq::<nat>::empty() =~= values(found@));
        }
        lemma_prime_factors(num as nat);
    }
    if rest > 1 {
        found.push(rest);
    }
    Ok(found)
}

} // verus!
