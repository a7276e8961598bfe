//! Primality: the defining predicate, a verified trial-division test, and
//! the divisor arithmetic that justifies it.

use vstd::prelude::*;
use vstd::arithmetic::div_mod::{
    lemma_fundamental_div_mod, lemma_fundamental_div_mod_converse_mod,
};

verus! {

/// `n` is prime: at least two, with no divisor strictly between one and
/// itself.
pub open spec fn spec_is_prime(n: int) -> bool {
    n >= 2 && forall|d: int| 2 <= d < n ==> #[trigger] (n % d) != 0
}

/// A divisor of a divisor divides.
pub proof fn lemma_divides_transitive(d: int, m: int, n: int)
    requires
        1 <= d,
        1 <= m,
        0 <= n,
        m % d == 0,
        n % m == 0,
    ensures
        n % d == 0,
{
    lemma_fundamental_div_mod(m, d);
    lemma_fundamental_div_mod(n, m);
    let a = m / d;
    let b = n / m;
    assert(n == (b * a) * d) by (nonlinear_arith)
        requires
            m == d * a,
            n == m * b,
    ;
    assert(0 <= b * a) by (nonlinear_arith)
        requires
            n == (b * a) * d,
            n >= 0,
            d >= 1,
    ;
    lemma_fundamental_div_mod_converse_mod(n, d, b * a, 0);
}

/// The other side of a factorization also divides.
pub proof fn lemma_cofactor_divides(n: int, d: int)
    requires
        1 <= d <= n,
        n % d == 0,
    ensures
        n / d >= 1,
        n % (n / d) == 0,
{
    lemma_fundamental_div_mod(n, d);
    let e = n / d;
    assert(e >= 1) by (nonlinear_arith)
        requires
            n == d * e,
            1 <= d <= n,
            n >= 1,
    ;
    assert(n == d * e + 0);
    assert(n == e * d + 0) by (nonlinear_arith)
        requires
            n == d * e + 0,
    ;
    lemma_fundamental_div_mod_converse_mod(n, e, d, 0);
}

/// A composite number has a divisor no larger than its square root.
pub proof fn lemma_composite_has_small_divisor(n: int)
    requires
        n >= 2,
        !spec_is_prime(n),
    ensures
        exists|d: int| 2 <= d && d * d <= n && #[trigger] (n % d) == 0,
{
    let d = choose|d: int| 2 <= d < n && #[trigger] (n % d) == 0;
    lemma_fundamental_div_mod(n, d);
    let e = n / d;
    assert(e >= 2) by (nonlinear_arith)
        requires
            n == d * e,
            2 <= d < n,
    ;
    lemma_cofactor_divides(n, d);
    if d <= e {
        assert(d * d <= n) by (nonlinear_arith)
            requires
                n == d * e,
                2 <= d <= e,
        ;
        assert(2 <= d && d * d <= n && n % d == 0);
    } else {
        assert(e * e <= n) by (nonlinear_arith)
            requires
                n == d * e,
                2 <= e <= d,
        ;
        assert(e < n) by (nonlinear_arith)
            requires
                n == d * e,
                2 <= e <= d,
                d >= 2,
        ;
        assert(2 <= e && e * e <= n && n % e == 0);
    }
}

/// A prime that divides a product of a positive residue below it and any
/// factor divides that factor: the descent step of Euclid's lemma.
proof fn lemma_euclid_descent(p: int, a: int, b: int)
    requires
        spec_is_prime(p),
        1 <= a < p,
        0 <= b,
        (a * b) % p == 0,
    ensures
        b % p == 0,
    decreases a,
{
    if a == 1 {
        assert(a * b == b) by (nonlinear_arith)
            requires
                a == 1,
        ;
    } else {
        lemma_fundamental_div_mod(p, a);
        let r = p % a;
        if r == 0 {
            assert(p % a == 0);
            assert(false);
        }
        lemma_fundamental_div_mod(a * b, p);
        let k = (a * b) / p;
        assert(r * b == p * (b - (p / a) * k)) by (nonlinear_arith)
            requires
                p == a * (p / a) + r,
                a * b == p * k,
        ;
        assert(r * b >= 0) by (nonlinear_arith)
            requires
                r >= 0,
                b >= 0,
        ;
        assert(b - (p / a) * k >= 0) by (nonlinear_arith)
            requires
                r * b == p * (b - (p / a) * k),
                r * b >= 0,
                p >= 2,
        ;
        lemma_fundamental_div_mod_converse_mod(r * b, p, b - (p / a) * k, 0);
        lemma_euclid_descent(p, r, b);
    }
}

/// Euclid's lemma: a prime dividing a product divides one of its factors.
pub proof fn lemma_euclid(p: int, a: int, b: int)
    requires
        spec_is_prime(p),
        0 <= a,
        0 <= b,
        (a * b) % p == 0,
    ensures
        a % p == 0 || b % p == 0,
{
    lemma_fundamental_div_mod(a, p);
    let a1 = a % p;
    assert(a1 * b == a * b - p * ((a / p) * b)) by (nonlinear_arith)
        requires
            a == p * (a / p) + a1,
    ;
    lemma_fundamental_div_mod(a * b, p);
    let k = (a * b) / p;
    assert(a1 * b == p * (k - (a / p) * b)) by (nonlinear_arith)
        requires
            a1 * b == a * b - p * ((a / p) * b),
            a * b == p * k,
    ;
    assert(a1 * b >= 0) by (nonlinear_arith)
        requires
            a1 >= 0,
            b >= 0,
    ;
    assert(k - (a / p) * b >= 0) by (nonlinear_arith)
        requires
            a1 * b == p * (k - (a / p) * b),
            a1 * b >= 0,
            p >= 2,
    ;
    lemma_fundamental_div_mod_converse_mod(a1 * b, p, k - (a / p) * b, 0);
    if a1 != 0 {
        lemma_euclid_descent(p, a1, b);
    }
}

/// Whether `n` is prime, by trial division: after two and three, only
/// candidates on either side of the multiples of six need testing.
pub fn is_prime(n: u64) -> (r: bool)
    ensures
        r == spec_is_prime(n as int),
{
    if n <= 1 {
        return false;
    }
    if n <= 3 {
        return true;
    }
    if n % 2 == 0 {
        assert(!spec_is_prime(n as int)) by {
            assert(n as int % 2 == 0);
        }
        return false;
    }
    if n % 3 == 0 {
        assert(!spec_is_prime(n as int)) by {
            assert(n as int % 3 == 0);
        }
        return false;
    }
    proof {
        assert forall|d: int| 2 <= d < 5 implies #[trigger] (n as int % d) != 0 by {
            if d == 4 && n as int % d == 0 {
                lemma_divides_transitive(2, 4, n as int);
            }
        }
    }
    let mut i: u64 = 5;
    while i <= n / i
        invariant
            5 <= i <= n,
            i % 6 == 5,
            n >= 5,
            n % 2 != 0,
            n % 3 != 0,
            forall|d: int| 2 <= d < i ==> #[trigger] (n as int % d) != 0,
        decreases n - i,
    {
        proof {
            let ni = n as int;
            let ii = i as int;
            lemma_fundamental_div_mod(ni, ii);
            assert(ii * ii <= ni) by (nonlinear_arith)
                requires
                    ii <= ni / ii,
                    ii >= 5,
                    ni == ii * (ni / ii) + ni % ii,
                    0 <= ni % ii < ii,
            ;
            assert((i * i) as int <= n);
            assert(i < n) by (nonlinear_arith)
                requires
                    i * i <= n,
                    i >= 5,
            ;
        }
        if n % i == 0 {
            return false;
        }
        if n % (i + 2) == 0 {
            proof {
                assert(i + 2 < n) by (nonlinear_arith)
                    requires
                        (i * i) as int <= n,
                        i >= 5,
                ;
            }
            return false;
        }
        proof {
            let ni = n as int;
            let ii = i as int;
            assert forall|d: int| 2 <= d < ii + 6 implies #[trigger] (ni % d) != 0 by {
                if d >= ii {
                    if d == ii + 1 || d == ii + 3 || d == ii + 5 {
                        assert(d % 2 == 0);
                        if ni % d == 0 {
                            lemma_divides_transitive(2, d, ni);
                        }
                    } else if d == ii + 4 {
                        assert(d % 3 == 0);
                        if ni % d == 0 {
                            lemma_divides_transitive(3, d, ni);
                        }
                    }
                }
            }
        }
        proof {
            assert(i + 6 <= n) by (nonlinear_arith)
                requires
                    (i * i) as int <= n as int,
                    i >= 5,
            ;
        }
        i = i + 6;
    }
    proof {
        let ni = n as int;
        let ii = i as int;
        lemma_fundamental_div_mod(ni, ii);
        assert(ii * ii > ni) by (nonlinear_arith)
            requires
                ii > ni / ii,
                ii >= 5,
                ni == ii * (ni / ii) + ni % ii,
                0 <= ni % ii < ii,
        ;
        if !spec_is_prime(ni) {
            lemma_composite_has_small_divisor(ni);
            let d = choose|d: int| 2 <= d && d * d <= ni && #[trigger] (ni % d) == 0;
            assert(d < ii) by (nonlinear_arith)
                requires
                    d * d <= ni,
                    ii * ii > ni,
                    d >= 2,
                    ii >= 5,
            ;
        }
    }
    true
}

} // verus!
