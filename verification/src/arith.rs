//! Divisibility, primality and products over the natural numbers.

use vstd::arithmetic::div_mod::*;
use vstd::arithmetic::mul::*;
use vstd::prelude::*;

verus! {

/// `d` divides `n` without remainder.
pub open spec fn divides(d: nat, n: nat) -> bool {
    d > 0 && n % d == 0
}

/// `n` has no divisor `k` with `2 <= k < bound`.
pub open spec fn no_divisor_below(n: nat, bound: nat) -> bool {
    forall|k: nat| 2 <= k < bound ==> !divides(k, n)
}

/// `n` is at least 2 and only 1 and `n` divide it.
pub open spec fn is_prime(n: nat) -> bool {
    n >= 2 && no_divisor_below(n, n)
}

/// The product of all entries of `s`; 1 for the empty sequence.
pub open spec fn product(s: Seq<nat>) -> nat
    decreases s.len(),
{
    if s.len() == 0 {
        1
    } else {
        s[0] * product(s.drop_first())
    }
}

/// Every entry of `s` is prime.
pub open spec fn all_prime(s: Seq<nat>) -> bool {
    forall|i: int| 0 <= i < s.len() ==> is_prime(#[trigger] s[i])
}

/// The entries of `s` never decrease from left to right.
pub open spec fn ascending(s: Seq<nat>) -> bool {
    forall|i: int, j: int| 0 <= i <= j < s.len() ==> s[i] <= s[j]
}

/// Every entry of `s` is at least `bound`.
pub open spec fn all_at_least(s: Seq<nat>, bound: nat) -> bool {
    forall|i: int| 0 <= i < s.len() ==> #[trigger] s[i] >= bound
}

/// A divisor times its quotient gives the number back.
pub proof fn lemma_divisor_times_quotient(d: nat, n: nat)
    requires
        divides(d, n),
    ensures
        d * (n / d) == n,
        (n / d) * d == n,
{
    lemma_fundamental_div_mod(n as int, d as int);
    lemma_mul_is_commutative(d as int, (n / d) as int);
}

/// Any multiple of `d` is divisible by `d`.
pub proof fn lemma_multiple_is_divisible(d: nat, q: nat)
    requires
        d > 0,
    ensures
        divides(d, d * q),
        divides(d, q * d),
{
    lemma_mod_multiples_basic(q as int, d as int);
    lemma_mul_is_commutative(d as int, q as int);
}

/// Divisibility is transitive.
pub proof fn lemma_divides_transitive(a: nat, b: nat, c: nat)
    requires
        divides(a, b),
        divides(b, c),
    ensures
        divides(a, c),
{
    lemma_divisor_times_quotient(a, b);
    lemma_divisor_times_quotient(b, c);
    let x = b / a;
    let y = c / b;
    assert(c == a * (x * y)) by {
        lemma_mul_is_associative(a as int, x as int, y as int);
    }
    lemma_multiple_is_divisible(a, x * y);
}

/// The quotient by a divisor is itself a divisor, and is positive when the
/// number is.
pub proof fn lemma_quotient_divides(d: nat, n: nat)
    requires
        divides(d, n),
        n > 0,
    ensures
        divides(n / d, n),
        n / d >= 1,
        n / d <= n,
{
    lemma_divisor_times_quotient(d, n);
    let q = n / d;
    assert(q >= 1) by (nonlinear_arith)
        requires
            d * q == n,
            n > 0,
    ;
    lemma_multiple_is_divisible(q, d);
    assert(q <= n) by (nonlinear_arith)
        requires
            d * q == n,
            d >= 1,
            q >= 1,
    ;
}

/// A divisor of a positive number never exceeds it.
pub proof fn lemma_divisor_bounded(d: nat, n: nat)
    requires
        divides(d, n),
        n > 0,
    ensures
        d <= n,
{
    if d > n {
        lemma_small_mod(n, d);
    }
}

/// Whatever divides the quotient `n / d` also divides `n`.
pub proof fn lemma_divisor_of_quotient(k: nat, d: nat, n: nat)
    requires
        divides(d, n),
        n > 0,
        divides(k, n / d),
    ensures
        divides(k, n),
{
    lemma_quotient_divides(d, n);
    lemma_divides_transitive(k, n / d, n);
}

/// A number with no divisor from 2 up to a bound whose square exceeds it is
/// prime.
pub proof fn lemma_prime_by_square_bound(n: nat, bound: nat)
    requires
        n >= 2,
        no_divisor_below(n, bound),
        bound * bound > n,
    ensures
        is_prime(n),
{
    assert forall|k: nat| 2 <= k < n implies !divides(k, n) by {
        if divides(k, n) {
            if k >= bound {
                let q = n / k;
                lemma_quotient_divides(k, n);
                lemma_divisor_times_quotient(k, n);
                assert(q >= 2 && q < bound) by (nonlinear_arith)
                    requires
                        k * q == n,
                        k < n,
                        k >= bound,
                        bound * bound > n,
                        q >= 1,
                        k >= 2,
                ;
                assert(divides(q, n));
            }
        }
    }
}

/// The product of a concatenation is the product of the products.
pub proof fn lemma_product_concat(a: Seq<nat>, b: Seq<nat>)
    ensures
        product(a + b) == product(a) * product(b),
    decreases a.len(),
{
    if a.len() == 0 {
        assert(a + b =~= b);
        assert(product(a) == 1);
    } else {
        assert((a + b).drop_first() =~= a.drop_first() + b);
        assert((a + b)[0] == a[0]);
        lemma_product_concat(a.drop_first(), b);
        let head = a[0];
        let rest = product(a.drop_first());
        let tail = product(b);
        assert(product(a + b) == head * product(a.drop_first() + b));
        assert(product(a) == head * rest);
        assert(head * (rest * tail) == (head * rest) * tail) by (nonlinear_arith);
    }
}

/// The product of primes is at least 1, and at least its first entry.
pub proof fn lemma_product_of_primes_bounds(s: Seq<nat>)
    requires
        all_prime(s),
    ensures
        product(s) >= 1,
        s.len() > 0 ==> product(s) >= s[0],
    decreases s.len(),
{
    if s.len() > 0 {
        let rest = s.drop_first();
        assert forall|i: int| 0 <= i < rest.len() implies is_prime(#[trigger] rest[i]) by {
            assert(rest[i] == s[i + 1]);
        }
        lemma_product_of_primes_bounds(rest);
        assert(is_prime(s[0]));
        assert(s[0] * product(rest) >= s[0]) by (nonlinear_arith)
            requires
                product(rest) >= 1,
        ;
    }
}

/// A prime that divides a product divides one of the two factors.
pub proof fn lemma_prime_divides_product(p: nat, a: nat, b: nat)
    requires
        is_prime(p),
        divides(p, a * b),
    ensures
        divides(p, a) || divides(p, b),
    decreases a,
{
    if a == 0 {
        lemma_small_mod(0, p);
    } else if divides(p, a) {
    } else if a >= p {
        let r = a % p;
        lemma_mul_mod_noop_left(a as int, b as int, p as int);
        lemma_mod_bound(a as int, p as int);
        assert(divides(p, r * b));
        lemma_prime_divides_product(p, r, b);
        lemma_small_mod(r, p);
    } else if a == 1 {
        assert(a * b == b) by (nonlinear_arith)
            requires
                a == 1,
        ;
    } else {
        let q = p / a;
        let r = p % a;
        let m = (a * b) / p;
        lemma_fundamental_div_mod(p as int, a as int);
        lemma_mod_bound(p as int, a as int);
        lemma_divisor_times_quotient(p, a * b);
        assert(!divides(a, p));
        assert(r * b == p * (b - q * m)) by (nonlinear_arith)
            requires
                p == a * q + r,
                p * m == a * b,
        ;
        assert(b - q * m >= 0) by (nonlinear_arith)
            requires
                r * b == p * (b - q * m),
                p > 0,
                r >= 0,
                b >= 0,
        ;
        lemma_multiple_is_divisible(p, (b - q * m) as nat);
        assert(divides(p, r * b));
        lemma_prime_divides_product(p, r, b);
        lemma_small_mod(r, p);
    }
}

/// A prime that divides a product of numbers divides one of them.
pub proof fn lemma_prime_divides_entry(p: nat, s: Seq<nat>)
    requires
        is_prime(p),
        divides(p, product(s)),
    ensures
        exists|i: int| 0 <= i < s.len() && divides(p, #[trigger] s[i]),
    decreases s.len(),
{
    if s.len() == 0 {
        lemma_small_mod(1, p);
    } else {
        let rest = s.drop_first();
        lemma_prime_divides_product(p, s[0], product(rest));
        if divides(p, s[0]) {
        } else {
            lemma_prime_divides_entry(p, rest);
            let i = choose|i: int| 0 <= i < rest.len() && divides(p, #[trigger] rest[i]);
            assert(s[i + 1] == rest[i]);
        }
    }
}

/// A prime that divides a prime is that prime.
pub proof fn lemma_prime_divides_prime(p: nat, q: nat)
    requires
        is_prime(p),
        is_prime(q),
        divides(p, q),
    ensures
        p == q,
{
    lemma_divisor_bounded(p, q);
}

} // verus!
