//! The search for odd composite numbers that defeat the conjecture that
//! every odd composite is a prime plus twice a square: the first two such
//! numbers, rendered as `"a,b"`.

use vstd::prelude::*;
use crate::primes::{is_prime, spec_is_prime};
use crate::text::{chars_to_string, dec_str, push_dec_u64};

verus! {

/// `n` is a prime plus twice a (possibly zero) square.
pub open spec fn spec_can_goldbach(n: int) -> bool {
    exists|k: int| 0 <= k && 2 * k * k < n && #[trigger] spec_is_prime(n - 2 * k * k)
}

/// `n` defeats the conjecture: odd, composite, and not a prime plus twice a
/// square.
pub open spec fn spec_counterexample(n: int) -> bool {
    n >= 3 && n % 2 == 1 && !spec_is_prime(n) && !spec_can_goldbach(n)
}

/// Whether `n` is a prime plus twice a square, trying every square below it.
pub fn can_be_goldbach(n: u64) -> (r: bool)
    ensures
        r == spec_can_goldbach(n as int),
{
    let mut k: u64 = 0;
    loop
        invariant
            0 <= k <= 0x1_0000_0000u64,
            forall|j: int|
                0 <= j < k ==> !(2 * j * j < n && #[trigger] spec_is_prime(n as int - 2 * j * j)),
        decreases 0x1_0000_0001u64 - k,
    {
        proof {
            assert(2 * (k as int) * (k as int) <= 0x2_0000_0000_0000_0000int) by (nonlinear_arith)
                requires
                    0 <= k as int <= 0x1_0000_0000int,
            ;
        }
        let t: u128 = 2u128 * (k as u128) * (k as u128);
        if t >= n as u128 {
            proof {
                assert forall|j: int| 0 <= j implies !(2 * j * j < n && #[trigger] spec_is_prime(
                    n as int - 2 * j * j,
                )) by {
                    if j >= k {
                        assert(2 * j * j >= 2 * (k as int) * (k as int)) by (nonlinear_arith)
                            requires
                                j >= k >= 0,
                        ;
                    }
                }
            }
            return false;
        }
        let twice_square = (t as u64);
        let remaining = n - twice_square;
        if is_prime(remaining) {
            return true;
        }
        proof {
            assert(k < 0x1_0000_0000u64) by (nonlinear_arith)
                requires
                    2 * (k as int) * (k as int) < n as int,
                    n <= u64::MAX,
                    k >= 0,
            ;
        }
        k = k + 1;
    }
}

/// The two concrete numbers the search finds, shown to defeat the
/// conjecture: a factor witnesses that each candidate remainder is
/// composite.
#[verifier::rlimit(100)]
proof fn lemma_counterexample_5777()
    ensures
        spec_counterexample(5777),
{
    assert(5777int % 53 == 0);
    assert(!spec_is_prime(5777));
    assert forall|k: int| 0 <= k && 2 * k * k < 5777 implies !(#[trigger] spec_is_prime(5777 - 2 * k * k)) by {
        assert(k < 54) by (nonlinear_arith)
            requires
                2 * k * k < 5777,
                k >= 0,
        ;
            if k == 0 {
                assert(5777int % 53 == 0);
                assert(!spec_is_prime(5777 - 2 * k * k));
            } else if k == 1 {
                assert(5775int % 3 == 0);
                assert(!spec_is_prime(5777 - 2 * k * k));
            } else if k == 2 {
                assert(5769int % 3 == 0);
                assert(!spec_is_prime(5777 - 2 * k * k));
            } else if k == 3 {
                assert(5759int % 13 == 0);
                assert(!spec_is_prime(5777 - 2 * k * k));
            } else if k == 4 {
                assert(5745int % 3 == 0);
                assert(!spec_is_prime(5777 - 2 * k * k));
            } else if k == 5 {
                assert(5727int % 3 == 0);
                assert(!spec_is_prime(5777 - 2 * k * k));
            } else if k == 6 {
                assert(5705int % 5 == 0);
                assert(!spec_is_prime(5777 - 2 * k * k));
            } else if k == 7 {
                assert(5679int % 3 == 0);
                assert(!spec_is_prime(5777 - 2 * k * k));
            } else if k == 8 {
                assert(5649int % 3 == 0);
                assert(!spec_is_prime(5777 - 2 * k * k));
            } else if k == 9 {
                assert(5615int % 5 == 0);
                assert(!spec_is_prime(5777 - 2 * k * k));
            } else if k == 10 {
                assert(5577int % 3 == 0);
                assert(!spec_is_prime(5777 - 2 * k * k));
            } else if k == 11 {
                assert(5535int % 3 == 0);
                assert(!spec_is_prime(5777 - 2 * k * k));
            } else if k == 12 {
                assert(5489int % 11 == 0);
                assert(!spec_is_prime(5777 - 2 * k * k));
            } else if k == 13 {
                assert(5439int % 3 == 0);
                assert(!spec_is_prime(5777 - 2 * k * k));
            } else if k == 14 {
                assert(5385int % 3 == 0);
                assert(!spec_is_prime(5777 - 2 * k * k));
            } else if k == 15 {
                assert(5327int % 7 == 0);
                assert(!spec_is_prime(5777 - 2 * k * k));
            } else if k == 16 {
                assert(5265int % 3 == 0);
                assert(!spec_is_prime(5777 - 2 * k * k));
            } else if k == 17 {
                assert(5199int % 3 == 0);
                assert(!spec_is_prime(5777 - 2 * k * k));
            } else if k == 18 {
                assert(5129int % 23 == 0);
                assert(!spec_is_prime(5777 - 2 * k * k));
            } else if k == 19 {
                assert(5055int % 3 == 0);
                assert(!spec_is_prime(5777 - 2 * k * k));
            } else if k == 20 {
                assert(4977int % 3 == 0);
                assert(!spec_is_prime(5777 - 2 * k * k));
            } else if k == 21 {
                assert(4895int % 5 == 0);
                assert(!spec_is_prime(5777 - 2 * k * k));
            } else if k == 22 {
                assert(4809int % 3 == 0);
                assert(!spec_is_prime(5777 - 2 * k * k));
            } else if k == 23 {
                assert(4719int % 3 == 0);
                assert(!spec_is_prime(5777 - 2 * k * k));
            } else if k == 24 {
                assert(4625int % 5 == 0);
                assert(!spec_is_prime(5777 - 2 * k * k));
            } else if k == 25 {
                assert(4527int % 3 == 0);
                assert(!spec_is_prime(5777 - 2 * k * k));
            } else if k == 26 {
                assert(4425int % 3 == 0);
                assert(!spec_is_prime(5777 - 2 * k * k));
            } else if k == 27 {
                assert(4319int % 7 == 0);
                assert(!spec_is_prime(5777 - 2 * k * k));
            } else if k == 28 {
                assert(4209int % 3 == 0);
                assert(!spec_is_prime(5777 - 2 * k * k));
            } else if k == 29 {
                assert(4095int % 3 == 0);
                assert(!spec_is_prime(5777 - 2 * k * k));
            } else if k == 30 {
                assert(3977int % 41 == 0);
                assert(!spec_is_prime(5777 - 2 * k * k));
            } else if k == 31 {
                assert(3855int % 3 == 0);
                assert(!spec_is_prime(5777 - 2 * k * k));
            } else if k == 32 {
                assert(3729int % 3 == 0);
                assert(!spec_is_prime(5777 - 2 * k * k));
            } else if k == 33 {
                assert(3599int % 59 == 0);
                assert(!spec_is_prime(5777 - 2 * k * k));
            } else if k == 34 {
                assert(3465int % 3 == 0);
                assert(!spec_is_prime(5777 - 2 * k * k));
            } else if k == 35 {
                assert(3327int % 3 == 0);
                assert(!spec_is_prime(5777 - 2 * k * k));
            } else if k == 36 {
                assert(3185int % 5 == 0);
                assert(!spec_is_prime(5777 - 2 * k * k));
            } else if k == 37 {
                assert(3039int % 3 == 0);
                assert(!spec_is_prime(5777 - 2 * k * k));
            } else if k == 38 {
                assert(2889int % 3 == 0);
                assert(!spec_is_prime(5777 - 2 * k * k));
            } else if k == 39 {
                assert(2735int % 5 == 0);
                assert(!spec_is_prime(5777 - 2 * k * k));
            } else if k == 40 {
                assert(2577int % 3 == 0);
                assert(!spec_is_prime(5777 - 2 * k * k));
            } else if k == 41 {
                assert(2415int % 3 == 0);
                assert(!spec_is_prime(5777 - 2 * k * k));
            } else if k == 42 {
                assert(2249int % 13 == 0);
                assert(!spec_is_prime(5777 - 2 * k * k));
            } else if k == 43 {
                assert(2079int % 3 == 0);
                assert(!spec_is_prime(5777 - 2 * k * k));
            } else if k == 44 {
                assert(1905int % 3 == 0);
                assert(!spec_is_prime(5777 - 2 * k * k));
            } else if k == 45 {
                assert(1727int % 11 == 0);
                assert(!spec_is_prime(5777 - 2 * k * k));
            } else if k == 46 {
                assert(1545int % 3 == 0);
                assert(!spec_is_prime(5777 - 2 * k * k));
            } else if k == 47 {
                assert(1359int % 3 == 0);
                assert(!spec_is_prime(5777 - 2 * k * k));
            } else if k == 48 {
                assert(1169int % 7 == 0);
                assert(!spec_is_prime(5777 - 2 * k * k));
            } else if k == 49 {
                assert(975int % 3 == 0);
                assert(!spec_is_prime(5777 - 2 * k * k));
            } else if k == 50 {
                assert(777int % 3 == 0);
                assert(!spec_is_prime(5777 - 2 * k * k));
            } else if k == 51 {
                assert(575int % 5 == 0);
                assert(!spec_is_prime(5777 - 2 * k * k));
            } else if k == 52 {
                assert(369int % 3 == 0);
                assert(!spec_is_prime(5777 - 2 * k * k));
            } else if k == 53 {
                assert(159int % 3 == 0);
                assert(!spec_is_prime(5777 - 2 * k * k));
            }
    }
}

/// The second number the search finds, shown the same way.
#[verifier::rlimit(100)]
proof fn lemma_counterexample_5993()
    ensures
        spec_counterexample(5993),
{
    assert(5993int % 13 == 0);
    assert(!spec_is_prime(5993));
    assert forall|k: int| 0 <= k && 2 * k * k < 5993 implies !(#[trigger] spec_is_prime(5993 - 2 * k * k)) by {
        assert(k < 55) by (nonlinear_arith)
            requires
                2 * k * k < 5993,
                k >= 0,
        ;
            if k == 0 {
                assert(5993int % 13 == 0);
                assert(!spec_is_prime(5993 - 2 * k * k));
            } else if k == 1 {
                assert(5991int % 3 == 0);
                assert(!spec_is_prime(5993 - 2 * k * k));
            } else if k == 2 {
                assert(5985int % 3 == 0);
                assert(!spec_is_prime(5993 - 2 * k * k));
            } else if k == 3 {
                assert(5975int % 5 == 0);
                assert(!spec_is_prime(5993 - 2 * k * k));
            } else if k == 4 {
                assert(5961int % 3 == 0);
                assert(!spec_is_prime(5993 - 2 * k * k));
            } else if k == 5 {
                assert(5943int % 3 == 0);
                assert(!spec_is_prime(5993 - 2 * k * k));
            } else if k == 6 {
                assert(5921int % 31 == 0);
                assert(!spec_is_prime(5993 - 2 * k * k));
            } else if k == 7 {
                assert(5895int % 3 == 0);
                assert(!spec_is_prime(5993 - 2 * k * k));
            } else if k == 8 {
                assert(5865int % 3 == 0);
                assert(!spec_is_prime(5993 - 2 * k * k));
            } else if k == 9 {
                assert(5831int % 7 == 0);
                assert(!spec_is_prime(5993 - 2 * k * k));
            } else if k == 10 {
                assert(5793int % 3 == 0);
                assert(!spec_is_prime(5993 - 2 * k * k));
            } else if k == 11 {
                assert(5751int % 3 == 0);
                assert(!spec_is_prime(5993 - 2 * k * k));
            } else if k == 12 {
                assert(5705int % 5 == 0);
                assert(!spec_is_prime(5993 - 2 * k * k));
            } else if k == 13 {
                assert(5655int % 3 == 0);
                assert(!spec_is_prime(5993 - 2 * k * k));
            } else if k == 14 {
                assert(5601int % 3 == 0);
                assert(!spec_is_prime(5993 - 2 * k * k));
            } else if k == 15 {
                assert(5543int % 23 == 0);
                assert(!spec_is_prime(5993 - 2 * k * k));
            } else if k == 16 {
                assert(5481int % 3 == 0);
                assert(!spec_is_prime(5993 - 2 * k * k));
            } else if k == 17 {
                assert(5415int % 3 == 0);
                assert(!spec_is_prime(5993 - 2 * k * k));
            } else if k == 18 {
                assert(5345int % 5 == 0);
                assert(!spec_is_prime(5993 - 2 * k * k));
            } else if k == 19 {
                assert(5271int % 3 == 0);
                assert(!spec_is_prime(5993 - 2 * k * k));
            } else if k == 20 {
                assert(5193int % 3 == 0);
                assert(!spec_is_prime(5993 - 2 * k * k));
            } else if k == 21 {
                assert(5111int % 19 == 0);
                assert(!spec_is_prime(5993 - 2 * k * k));
            } else if k == 22 {
                assert(5025int % 3 == 0);
                assert(!spec_is_prime(5993 - 2 * k * k));
            } else if k == 23 {
                assert(4935int % 3 == 0);
                assert(!spec_is_prime(5993 - 2 * k * k));
            } else if k == 24 {
                assert(4841int % 47 == 0);
                assert(!spec_is_prime(5993 - 2 * k * k));
            } else if k == 25 {
                assert(4743int % 3 == 0);
                assert(!spec_is_prime(5993 - 2 * k * k));
            } else if k == 26 {
                assert(4641int % 3 == 0);
                assert(!spec_is_prime(5993 - 2 * k * k));
            } else if k == 27 {
                assert(4535int % 5 == 0);
                assert(!spec_is_prime(5993 - 2 * k * k));
            } else if k == 28 {
                assert(4425int % 3 == 0);
                assert(!spec_is_prime(5993 - 2 * k * k));
            } else if k == 29 {
                assert(4311int % 3 == 0);
                assert(!spec_is_prime(5993 - 2 * k * k));
            } else if k == 30 {
                assert(4193int % 7 == 0);
                assert(!spec_is_prime(5993 - 2 * k * k));
            } else if k == 31 {
                assert(4071int % 3 == 0);
                assert(!spec_is_prime(5993 - 2 * k * k));
            } else if k == 32 {
                assert(3945int % 3 == 0);
                assert(!spec_is_prime(5993 - 2 * k * k));
            } else if k == 33 {
                assert(3815int % 5 == 0);
                assert(!spec_is_prime(5993 - 2 * k * k));
            } else if k == 34 {
                assert(3681int % 3 == 0);
                assert(!spec_is_prime(5993 - 2 * k * k));
            } else if k == 35 {
                assert(3543int % 3 == 0);
                assert(!spec_is_prime(5993 - 2 * k * k));
            } else if k == 36 {
                assert(3401int % 19 == 0);
                assert(!spec_is_prime(5993 - 2 * k * k));
            } else if k == 37 {
                assert(3255int % 3 == 0);
                assert(!spec_is_prime(5993 - 2 * k * k));
            } else if k == 38 {
                assert(3105int % 3 == 0);
                assert(!spec_is_prime(5993 - 2 * k * k));
            } else if k == 39 {
                assert(2951int % 13 == 0);
                assert(!spec_is_prime(5993 - 2 * k * k));
            } else if k == 40 {
                assert(2793int % 3 == 0);
                assert(!spec_is_prime(5993 - 2 * k * k));
            } else if k == 41 {
                assert(2631int % 3 == 0);
                assert(!spec_is_prime(5993 - 2 * k * k));
            } else if k == 42 {
                assert(2465int % 5 == 0);
                assert(!spec_is_prime(5993 - 2 * k * k));
            } else if k == 43 {
                assert(2295int % 3 == 0);
                assert(!spec_is_prime(5993 - 2 * k * k));
            } else if k == 44 {
                assert(2121int % 3 == 0);
                assert(!spec_is_prime(5993 - 2 * k * k));
            } else if k == 45 {
                assert(1943int % 29 == 0);
                assert(!spec_is_prime(5993 - 2 * k * k));
            } else if k == 46 {
                assert(1761int % 3 == 0);
                assert(!spec_is_prime(5993 - 2 * k * k));
            } else if k == 47 {
                assert(1575int % 3 == 0);
                assert(!spec_is_prime(5993 - 2 * k * k));
            } else if k == 48 {
                assert(1385int % 5 == 0);
                assert(!spec_is_prime(5993 - 2 * k * k));
            } else if k == 49 {
                assert(1191int % 3 == 0);
                assert(!spec_is_prime(5993 - 2 * k * k));
            } else if k == 50 {
                assert(993int % 3 == 0);
                assert(!spec_is_prime(5993 - 2 * k * k));
            } else if k == 51 {
                assert(791int % 7 == 0);
                assert(!spec_is_prime(5993 - 2 * k * k));
            } else if k == 52 {
                assert(585int % 3 == 0);
                assert(!spec_is_prime(5993 - 2 * k * k));
            } else if k == 53 {
                assert(375int % 3 == 0);
                assert(!spec_is_prime(5993 - 2 * k * k));
            } else if k == 54 {
                assert(161int % 7 == 0);
                assert(!spec_is_prime(5993 - 2 * k * k));
            }
    }
}

/// Finds the first two odd composite numbers that are not a prime plus twice
/// a square, and renders them as `"a,b"`.
pub fn goldbach_conjecture() -> (r: String)
    ensures
        exists|a: int, b: int|
            3 <= a < b && spec_counterexample(a) && spec_counterexample(b) && (forall|m: int|
                3 <= m < b && m != a ==> !spec_counterexample(m)) && r@ == dec_str(a as nat)
                + seq![','] + dec_str(b as nat),
{
    let mut found: Vec<u64> = Vec::new();
    let mut n: u64 = 3;
    while found.len() < 2
        invariant
            n % 2 == 1,
            3 <= n <= 5995,
            found@.len() <= 2,
            forall|i: int|
                0 <= i < found@.len() ==> 3 <= #[trigger] found@[i] < n && spec_counterexample(
                    found@[i] as int,
                ),
            found@.len() == 2 ==> found@[0] < found@[1],
            forall|m: int|
                3 <= m < n && spec_counterexample(m) ==> (found@.len() >= 1 && found@[0] == m) || (
                found@.len() >= 2 && found@[1] == m),
            found@.len() < 2 ==> n <= 5993,
        decreases 5995 - n,
    {
        proof {
            lemma_counterexample_5777();
            lemma_counterexample_5993();
        }
        if n % 2 == 1 && !is_prime(n) && !can_be_goldbach(n) {
            found.push(n);
        }
        proof {
            assert forall|m: int| 3 <= m < n + 2 && spec_counterexample(m) implies (found@.len()
                >= 1 && found@[0] == m) || (found@.len() >= 2 && found@[1] == m) by {
                if m == n + 1 {
                    assert(m % 2 == 0);
                }
            }
        }
        n = n + 2;
    }
    let a = found[0];
    let b = found[1];
    let mut out: Vec<char> = Vec::new();
    push_dec_u64(a, &mut out);
    out.push(',');
    push_dec_u64(b, &mut out);
    proof {
        let ai = a as int;
        let bi = b as int;
        assert(out@ =~= dec_str(ai as nat) + seq![','] + dec_str(bi as nat));
        assert(3 <= ai < bi && spec_counterexample(ai) && spec_counterexample(bi) && (forall|
            m: int,
        |
            3 <= m < bi && m != ai ==> !spec_counterexample(m)) && out@ == dec_str(ai as nat)
            + seq![','] + dec_str(bi as nat));
    }
    chars_to_string(&out)
}

} // verus!
