//! The largest prime factor of a number, by trial division: factors of two
//! first, then odd candidates. Once the candidate passes the square root of
//! what is left, only the small-remainder cut-off keeps the answer from the
//! remaining prime.

use vstd::prelude::*;
use vstd::arithmetic::div_mod::{
    lemma_fundamental_div_mod, lemma_fundamental_div_mod_converse_mod, lemma_small_mod,
};
use crate::primes::{
    lemma_composite_has_small_divisor, lemma_divides_transitive, lemma_euclid, spec_is_prime,
};

verus! {

/// What remains of `n` after every factor of two is taken out.
pub open spec fn odd_part(n: int) -> int
    decreases n,
{
    if n >= 2 && n % 2 == 0 {
        odd_part(n / 2)
    } else {
        n
    }
}

/// The odd part is positive, odd, and divides the number.
proof fn lemma_odd_part_props(n: int)
    requires
        n >= 1,
    ensures
        1 <= odd_part(n) <= n,
        odd_part(n) % 2 == 1,
        n % odd_part(n) == 0,
    decreases n,
{
    if !(n >= 2 && n % 2 == 0) {
        lemma_fundamental_div_mod_converse_mod(n, n, 1, 0);
    }
    if n >= 2 && n % 2 == 0 {
        lemma_fundamental_div_mod(n, 2);
        lemma_odd_part_props(n / 2);
        let m = odd_part(n / 2);
        let q = (n / 2) / m;
        lemma_fundamental_div_mod(n / 2, m);
        assert(n == m * (2 * q)) by (nonlinear_arith)
            requires
                n == 2 * (n / 2),
                n / 2 == m * q,
        ;
        assert(2 * q >= 0) by (nonlinear_arith)
            requires
                n == m * (2 * q),
                n >= 1,
                m >= 1,
        ;
        lemma_fundamental_div_mod_converse_mod(n, m, 2 * q, 0);
    }
}

/// Every number of two or more has a prime divisor.
proof fn lemma_has_prime_divisor(n: int)
    requires
        n >= 2,
    ensures
        exists|p: int| spec_is_prime(p) && #[trigger] (n % p) == 0,
    decreases n,
{
    if spec_is_prime(n) {
        assert(n % n == 0) by {
            lemma_fundamental_div_mod_converse_mod(n, n, 1, 0);
        }
        assert(spec_is_prime(n) && n % n == 0);
    } else {
        let d = choose|d: int| 2 <= d < n && #[trigger] (n % d) == 0;
        lemma_has_prime_divisor(d);
        let p = choose|p: int| spec_is_prime(p) && #[trigger] (d % p) == 0;
        lemma_divides_transitive(p, d, n);
        assert(spec_is_prime(p) && n % p == 0);
    }
}

/// An odd prime dividing a number divides its odd part.
proof fn lemma_odd_prime_divides_odd_part(n: int, p: int)
    requires
        n >= 1,
        spec_is_prime(p),
        p % 2 == 1,
        n % p == 0,
    ensures
        odd_part(n) % p == 0,
    decreases n,
{
    if n >= 2 && n % 2 == 0 {
        lemma_fundamental_div_mod(n, 2);
        assert((2 * (n / 2)) % p == 0);
        assert(p >= 3);
        lemma_small_mod(2nat, p as nat);
        assert(2int % p == 2);
        lemma_euclid(p, 2, n / 2);
        lemma_odd_prime_divides_odd_part(n / 2, p);
    }
}

/// The largest prime factor found by the trial division: after the factors
/// of two, odd candidates are divided out in increasing order, so the last
/// one recorded — or the prime remainder — is the largest. One cut-off: when
/// what is left after the twos is below nine, the trial stops early and only
/// the factor of two (if any) is reported.
pub fn largest_prime_factor(number: u128) -> (r: u128)
    requires
        number >= 1,
    ensures
        odd_part(number as int) == 1 ==> r == if number >= 2 {
            2int
        } else {
            0int
        },
        1 < odd_part(number as int) < 9 ==> r == if number as int % 2 == 0 {
            2int
        } else {
            0int
        },
        odd_part(number as int) >= 9 ==> spec_is_prime(r as int) && number as int % (r as int)
            == 0 && (forall|p: int|
            spec_is_prime(p) && number as int % p == 0 ==> p <= r as int),
{
    let ghost nn = number as int;
    let mut max_prime: u128 = 0;
    let mut end = number;
    while end % 2 == 0
        invariant
            1 <= end <= number,
            number as int % (end as int) == 0,
            odd_part(end as int) == odd_part(number as int),
            (max_prime == 2 && end < number && number % 2 == 0) || (max_prime == 0 && end
                == number),
        decreases end,
    {
        max_prime = 2;
        let e2 = end / 2;
        proof {
            lemma_fundamental_div_mod(end as int, 2);
            lemma_fundamental_div_mod_converse_mod(end as int, e2 as int, 2, 0);
            lemma_divides_transitive(e2 as int, end as int, number as int);
        }
        end = e2;
    }
    proof {
        assert(odd_part(end as int) == end as int);
        lemma_odd_part_props(nn);
    }
    let ghost m = odd_part(nn);
    let mut factor: u128 = 3;
    if factor > end / factor {
        proof {
            lemma_fundamental_div_mod(end as int, 3);
            assert(end < 9) by (nonlinear_arith)
                requires
                    3 > end as int / 3,
                    end as int == 3 * (end as int / 3) + end as int % 3,
                    0 <= end as int % 3 < 3,
            ;
        }
        return max_prime;
    }
    proof {
        lemma_fundamental_div_mod(end as int, 3);
        assert(end >= 9) by (nonlinear_arith)
            requires
                3 <= end as int / 3,
                end as int == 3 * (end as int / 3) + end as int % 3,
                0 <= end as int % 3 < 3,
        ;
        assert forall|p: int| spec_is_prime(p) && nn % p == 0 implies p <= max_prime as int || (
        end as int % p) == 0 by {
            if p % 2 == 1 {
                lemma_odd_prime_divides_odd_part(nn, p);
            } else {
                assert(p == 2);
                assert(nn % 2 == 0);
            }
        }
    }
    while factor <= end / factor
        invariant
            3 <= factor,
            factor % 2 == 1,
            1 <= end,
            end % 2 == 1,
            number >= 1,
            nn == number as int,
            number as int % (end as int) == 0,
            max_prime == 2 || max_prime == 0 || (spec_is_prime(max_prime as int) && 3 <= max_prime
                < factor),
            max_prime < factor,
            max_prime == 2 ==> number % 2 == 0,
            max_prime > 0 ==> spec_is_prime(max_prime as int) && number as int % (
            max_prime as int) == 0,
            forall|d: int| 2 <= d < factor ==> #[trigger] (end as int % d) != 0,
            forall|p: int|
                spec_is_prime(p) && nn % p == 0 ==> p <= max_prime as int || (#[trigger] (
                end as int % p)) == 0,
        decreases (if end >= factor {
            (end - factor) as int
        } else {
            0int
        }),
    {
        let ghost end0 = end as int;
        let ghost f = factor as int;
        proof {
            lemma_fundamental_div_mod(end as int, factor as int);
            assert(f * f <= end0) by (nonlinear_arith)
                requires
                    f <= end0 / f,
                    f >= 3,
                    end0 == f * (end0 / f) + end0 % f,
                    0 <= end0 % f < f,
            ;
            assert(end0 - f >= 6) by (nonlinear_arith)
                requires
                    f * f <= end0,
                    f >= 3,
            ;
        }
        if end % factor == 0 {
            proof {
                assert forall|d: int| 2 <= d < f implies #[trigger] (f % d) != 0 by {
                    if f % d == 0 {
                        lemma_divides_transitive(d, f, end as int);
                    }
                }
                assert(spec_is_prime(f));
            }
            proof {
                lemma_divides_transitive(f, end as int, nn);
            }
            max_prime = factor;
            while end % factor == 0
                invariant
                    3 <= factor,
                    factor % 2 == 1,
                    f == factor as int,
                    spec_is_prime(f),
                    max_prime == factor,
                    1 <= end,
                    end % 2 == 1,
                    number >= 1,
                    nn == number as int,
                    end as int <= end0,
                    number as int % (end as int) == 0,
                    number as int % f == 0,
                    forall|d: int| 2 <= d < factor ==> #[trigger] (end as int % d) != 0,
                    forall|p: int|
                        spec_is_prime(p) && nn % p == 0 ==> p <= max_prime as int || (#[trigger] (
                        end as int % p)) == 0,
                decreases end,
            {
                let e2 = end / factor;
                proof {
                    let e0 = end as int;
                    let e1 = e2 as int;
                    lemma_fundamental_div_mod(e0, f);
                    assert(e0 == f * e1);
                    assert(e0 == e1 * f + 0) by (nonlinear_arith)
                        requires
                            e0 == f * e1,
                    ;
                    lemma_fundamental_div_mod_converse_mod(e0, e1, f, 0);
                    lemma_divides_transitive(e1, e0, nn);
                    if e1 % 2 == 0 {
                        lemma_fundamental_div_mod(e1, 2);
                        assert(e0 == 2 * (f * (e1 / 2))) by (nonlinear_arith)
                            requires
                                e0 == f * e1,
                                e1 == 2 * (e1 / 2),
                        ;
                        assert(f * (e1 / 2) >= 0) by (nonlinear_arith)
                            requires
                                e0 == 2 * (f * (e1 / 2)),
                                e0 >= 1,
                        ;
                        lemma_fundamental_div_mod_converse_mod(e0, 2, f * (e1 / 2), 0);
                        assert(false);
                    }
                    assert(e1 % 2 == 1);
                    assert(e1 >= 1) by (nonlinear_arith)
                        requires
                            e0 == f * e1,
                            e0 >= 1,
                            f >= 3,
                    ;
                    assert(e1 < e0) by (nonlinear_arith)
                        requires
                            e0 == f * e1,
                            f >= 3,
                            e1 >= 1,
                    ;
                    assert forall|d: int| 2 <= d < factor implies #[trigger] (e1 % d) != 0 by {
                        if e1 % d == 0 {
                            lemma_divides_transitive(d, e1, e0);
                        }
                    }
                    assert forall|p: int|
                        spec_is_prime(p) && nn % p == 0 && p > max_prime as int implies (#[trigger] (
                    e1 % p)) == 0 by {
                        assert(e0 % p == 0);
                        assert((f * e1) % p == 0);
                        lemma_euclid(p, f, e1);
                        if f % p == 0 {
                            lemma_fundamental_div_mod(f, p);
                            assert(p <= f) by (nonlinear_arith)
                                requires
                                    f == p * (f / p) + 0,
                                    f >= 3,
                                    p >= 2,
                            ;
                        }
                    }
                }
                end = e2;
            }
        }
        proof {
            let e0 = end as int;
            assert forall|d: int| 2 <= d < f + 2 implies #[trigger] (e0 % d) != 0 by {
                if d == f + 1 {
                    if e0 % d == 0 {
                        lemma_divides_transitive(2, d, e0);
                    }
                }
            }
        }
        proof {
            assert(f <= 0xFFFF_FFFF_FFFF_FFFFint) by (nonlinear_arith)
                requires
                    f * f <= end0,
                    end0 <= 0xFFFF_FFFF_FFFF_FFFF_FFFF_FFFF_FFFF_FFFFint,
                    f >= 3,
            ;
            assert(end0 >= f) by (nonlinear_arith)
                requires
                    f * f <= end0,
                    f >= 3,
            ;
        }
        factor = factor + 2;
    }
    proof {
        let e0 = end as int;
        let f = factor as int;
        lemma_fundamental_div_mod(e0, f);
        assert(f * f > e0) by (nonlinear_arith)
            requires
                f > e0 / f,
                f >= 3,
                e0 == f * (e0 / f) + e0 % f,
                0 <= e0 % f < f,
        ;
        if e0 > 1 {
            if !spec_is_prime(e0) {
                lemma_composite_has_small_divisor(e0);
                let d = choose|d: int| 2 <= d && d * d <= e0 && #[trigger] (e0 % d) == 0;
                assert(d < f) by (nonlinear_arith)
                    requires
                        d * d <= e0,
                        f * f > e0,
                        d >= 2,
                        f >= 3,
                ;
            }
            assert(spec_is_prime(e0));
            assert(e0 >= f) by {
                if e0 < f {
                    assert(e0 % e0 == 0) by {
                        lemma_fundamental_div_mod_converse_mod(e0, e0, 1, 0);
                    }
                }
            }
        }
    }
    if end > 1 {
        proof {
            assert forall|p: int| spec_is_prime(p) && nn % p == 0 implies p <= end as int by {
                if end as int % p == 0 {
                    assert(spec_is_prime(end as int));
                    if p > end as int {
                        lemma_small_mod(end as nat, p as nat);
                    }
                } else {
                    assert(p <= max_prime as int);
                }
            }
        }
        max_prime = end;
    } else {
        proof {
            if m >= 9 {
                lemma_odd_part_props(nn);
                assert forall|p: int| spec_is_prime(p) && nn % p == 0 implies p
                    <= max_prime as int by {
                    lemma_small_mod(1nat, p as nat);
                    assert(end as int % p == 1);
                }
                lemma_has_prime_divisor(m);
                let p0 = choose|p: int| spec_is_prime(p) && #[trigger] (m % p) == 0;
                lemma_divides_transitive(p0, m, nn);
                assert(p0 <= max_prime as int);
                assert(max_prime >= 2);
            }
        }
    }
    max_prime
}

} // verus!
