//! Adding two integers with a bitwise full adder: the bits of both operands
//! are walked from the least significant end, a one-bit carry rippling along.

use vstd::prelude::*;
use vstd::arithmetic::div_mod::{lemma_breakdown, lemma_div_denominator, lemma_small_mod};
use vstd::arithmetic::power2::{
    lemma2_to64, lemma_pow2_pos, lemma_pow2_strictly_increases, lemma_pow2_unfold, pow2,
};

verus! {

/// The sum of `a` and `b`, computed bit by bit with a rippling carry.
#[verifier::rlimit(60)]
pub fn get_sum(a: i32, b: i32) -> (r: i32)
    requires
        i32::MIN <= a + b <= i32::MAX,
    ensures
        r == a + b,
{
    let mut xa: u32 = if a >= 0 {
        a as u32
    } else {
        ((a as i64) + 0x1_0000_0000i64) as u32
    };
    let mut xb: u32 = if b >= 0 {
        b as u32
    } else {
        ((b as i64) + 0x1_0000_0000i64) as u32
    };
    let ghost ua = xa as int;
    let ghost ub = xb as int;
    let mut result: u64 = 0;
    let mut carry: u32 = 0;
    let mut pw: u64 = 1;
    let mut index: u32 = 0;
    proof {
        lemma2_to64();
        lemma_small_mod(0nat, 1nat);
    }
    while index < 32
        invariant
            index <= 32,
            pw == pow2(index as nat),
            carry <= 1,
            result < pw,
            xa == ua / (pow2(index as nat) as int),
            xb == ub / (pow2(index as nat) as int),
            result + carry * pw == ua % (pw as int) + ub % (pw as int),
            ua == a + (if a >= 0 {
                0int
            } else {
                0x1_0000_0000int
            }),
            ub == b + (if b >= 0 {
                0int
            } else {
                0x1_0000_0000int
            }),
        decreases 32 - index,
    {
        let ghost p = pw as int;
        proof {
            lemma_pow2_pos(index as nat);
            lemma_pow2_unfold((index + 1) as nat);
            assert(pow2((index + 1) as nat) == 2 * pow2(index as nat));
            lemma_breakdown(ua, p, 2);
            lemma_breakdown(ub, p, 2);
            assert(p * 2 == pow2((index + 1) as nat)) by (nonlinear_arith)
                requires
                    p == pow2(index as nat),
                    pow2((index + 1) as nat) == 2 * pow2(index as nat),
            ;
            lemma_div_denominator(ua, p, 2);
            lemma_div_denominator(ub, p, 2);
            lemma2_to64();
            if index + 1 < 32 {
                lemma_pow2_strictly_increases((index + 1) as nat, 32);
            }
            assert(pow2((index + 1) as nat) <= 0x1_0000_0000);
        }
        let abit = xa % 2;
        let bbit = xb % 2;
        let total = abit + bbit + carry;
        let out = total % 2;
        let next_carry = total / 2;
        proof {
            assert(result + (out as u64) * pw < pw * 2 && (result + (out as u64) * pw) as int + (
            next_carry as int) * (p * 2) == ua % (p * 2) + ub % (p * 2)) by (nonlinear_arith)
                requires
                    result < pw,
                    p == pw as int,
                    p >= 1,
                    out == total % 2,
                    next_carry == total / 2,
                    total == abit + bbit + carry,
                    total <= 3,
                    abit == (ua / p) % 2,
                    bbit == (ub / p) % 2,
                    result + carry * pw == ua % p + ub % p,
                    ua % (p * 2) == p * ((ua / p) % 2) + ua % p,
                    ub % (p * 2) == p * ((ub / p) % 2) + ub % p,
            ;
        }
        result = result + (out as u64) * pw;
        carry = next_carry;
        xa = xa / 2;
        xb = xb / 2;
        proof {
            assert(pw * 2 == pow2((index + 1) as nat));
        }
        pw = pw * 2;
        index = index + 1;
    }
    proof {
        lemma2_to64();
        assert(pow2(32) == 0x1_0000_0000);
        lemma_small_mod(ua as nat, 0x1_0000_0000nat);
        lemma_small_mod(ub as nat, 0x1_0000_0000nat);
        assert(result + carry * 0x1_0000_0000u64 == ua + ub);
        let s = a + b;
        let rr = result as int;
        let ka: int = if a >= 0 { 0int } else { 1int };
        let kb: int = if b >= 0 { 0int } else { 1int };
        let kr: int = if rr < 0x8000_0000int { 0int } else { 1int };
        assert(ua == a + ka * 0x1_0000_0000int);
        assert(ub == b + kb * 0x1_0000_0000int);
        let ri = rr - kr * 0x1_0000_0000int;
        assert(ri == s) by (nonlinear_arith)
            requires
                rr == ua + ub - (carry as int) * 0x1_0000_0000int,
                0 <= carry <= 1,
                0 <= ka <= 1,
                0 <= kb <= 1,
                0 <= kr <= 1,
                0 <= rr < 0x1_0000_0000int,
                ua == a + ka * 0x1_0000_0000int,
                ub == b + kb * 0x1_0000_0000int,
                ri == rr - kr * 0x1_0000_0000int,
                s == a + b,
                -0x8000_0000int <= s <= 0x7FFF_FFFFint,
                -0x8000_0000int <= ri <= 0x7FFF_FFFFint,
        ;
    }
    if result < 0x8000_0000 {
        result as i32
    } else {
        ((result as i64) - 0x1_0000_0000i64) as i32
    }
}

} // verus!
