//! Base conversion: a numeral written as `"digits(base)"` is re-rendered in
//! another base, lowercase digits for values past nine.

use vstd::prelude::*;
use crate::text::{
    all_dec_digits, chars_to_string, dec_val, digit_char, find_char, find_char_from,
    lemma_dec_val_nonneg, lemma_find_char, parse_dec_u32,
};

verus! {

/// The value a digit character carries in positional notation: letters of
/// either case continue past nine; anything else is out of every base.
pub open spec fn radix_digit_val(c: char) -> int {
    if '0' <= c <= '9' {
        c as int - '0' as int
    } else if 'a' <= c <= 'z' {
        c as int - 'a' as int + 10
    } else if 'A' <= c <= 'Z' {
        c as int - 'A' as int + 10
    } else {
        99
    }
}

/// Every character of `s` is a digit of base `b`.
pub open spec fn all_radix_digits(s: Seq<char>, b: int) -> bool {
    forall|i: int| 0 <= i < s.len() ==> 0 <= radix_digit_val(#[trigger] s[i]) < b
}

/// Value of a digit run in base `b`, most significant first.
pub open spec fn radix_val(s: Seq<char>, b: int) -> int
    decreases s.len(),
{
    if s.len() == 0 {
        0
    } else {
        radix_val(s.drop_last(), b) * b + radix_digit_val(s.last())
    }
}

/// Digit runs have non-negative values in any positive base.
proof fn lemma_radix_val_nonneg(s: Seq<char>, b: int)
    requires
        b >= 1,
        all_radix_digits(s, b),
    ensures
        radix_val(s, b) >= 0,
    decreases s.len(),
{
    if s.len() > 0 {
        assert(all_radix_digits(s.drop_last(), b));
        lemma_radix_val_nonneg(s.drop_last(), b);
        assert(radix_val(s.drop_last(), b) * b >= 0) by (nonlinear_arith)
            requires
                radix_val(s.drop_last(), b) >= 0,
                b >= 1,
        ;
    }
}

/// A prefix of a digit run never exceeds the whole run's value.
proof fn lemma_radix_val_prefix_le(s: Seq<char>, b: int, i: int)
    requires
        b >= 2,
        all_radix_digits(s, b),
        0 <= i <= s.len(),
    ensures
        radix_val(s.subrange(0, i), b) <= radix_val(s, b),
    decreases s.len(),
{
    if i == s.len() {
        assert(s.subrange(0, i) =~= s);
    } else {
        assert(all_radix_digits(s.drop_last(), b));
        assert(s.subrange(0, i) =~= s.drop_last().subrange(0, i));
        lemma_radix_val_prefix_le(s.drop_last(), b, i);
        lemma_radix_val_nonneg(s.drop_last(), b);
        assert(radix_val(s.drop_last(), b) * b >= radix_val(s.drop_last(), b)) by (nonlinear_arith)
            requires
                radix_val(s.drop_last(), b) >= 0,
                b >= 2,
        ;
    }
}

/// The digit character for a value below sixteen, lowercase past nine.
pub open spec fn base_digit_char(d: int) -> char {
    if d < 10 {
        digit_char(d)
    } else {
        ((d - 10 + 'a' as int) as u8) as char
    }
}

/// The rendering of `n` in base `b`: no sign, no leading zero except for the
/// single digit of zero itself.
pub open spec fn base_str(n: nat, b: nat) -> Seq<char>
    decreases n,
{
    if b < 2 {
        Seq::empty()
    } else if n < b {
        seq![base_digit_char(n as int)]
    } else if n / b < n {
        base_str(n / b, b).push(base_digit_char((n % b) as int))
    } else {
        Seq::empty()
    }
}

/// The digit character for a value below sixteen.
fn base_digit(d: u64) -> (c: char)
    requires
        d < 16,
    ensures
        c == base_digit_char(d as int),
{
    if d < 10 {
        (d as u8 + 48) as char
    } else {
        (d as u8 - 10 + 97) as char
    }
}

/// Appends the base-`b` rendering of `n` to `out`.
fn push_base_digits(n: u64, b: u64, out: &mut Vec<char>)
    requires
        2 <= b <= 16,
    ensures
        final(out)@ == old(out)@ + base_str(n as nat, b as nat),
    decreases n,
{
    if n < b {
        out.push(base_digit(n));
        assert(old(out)@ + base_str(n as nat, b as nat) =~= final(out)@);
    } else {
        proof {
            assert(n / b < n && n % b < b) by (nonlinear_arith)
                requires
                    2 <= b,
                    n >= b,
            ;
        }
        push_base_digits(n / b, b, out);
        out.push(base_digit(n % b));
        assert(old(out)@ + base_str(n as nat, b as nat) =~= final(out)@);
    }
}

/// Where the parentheses of a `"digits(base)"` numeral stand.
pub open spec fn numeral_parens(s: Seq<char>) -> (int, int) {
    (find_char(s, 0, '('), find_char(s, 0, ')'))
}

/// `s` reads as `"digits(base)"`: a non-empty numeral, then a decimal base
/// between two and thirty-six in parentheses, the numeral's digits all below
/// the base and its value within the signed 64-bit range.
pub open spec fn is_numeral_text(s: Seq<char>) -> bool {
    let (p, q) = numeral_parens(s);
    let b = dec_val(s.subrange(p + 1, q));
    0 < p && p + 1 < q && q < s.len() && all_dec_digits(s.subrange(p + 1, q)) && 2 <= b <= 36
        && all_radix_digits(s.subrange(0, p), b) && radix_val(s.subrange(0, p), b) <= i64::MAX
}

/// The value a `"digits(base)"` numeral denotes.
pub open spec fn numeral_value(s: Seq<char>) -> int {
    let (p, q) = numeral_parens(s);
    radix_val(s.subrange(0, p), dec_val(s.subrange(p + 1, q)))
}

/// Reads a `"digits(base)"` numeral and renders its value in `to_base`.
pub fn convert_base(num_str: &str, to_base: u32) -> (r: String)
    requires
        num_str@.len() <= usize::MAX,
        is_numeral_text(num_str@),
        2 <= to_base <= 16,
    ensures
        r@ == base_str(numeral_value(num_str@) as nat, to_base as nat),
{
    let ghost s = num_str@;
    let p = find_char_from(num_str, 0, '(');
    let q = find_char_from(num_str, 0, ')');
    proof {
        lemma_find_char(s, 0, '(');
        lemma_find_char(s, 0, ')');
        lemma_dec_val_nonneg(s.subrange(p as int + 1, q as int));
    }
    let base = parse_dec_u32(num_str, p + 1, q) as u64;
    let ghost body = s.subrange(0, p as int);
    proof {
        lemma_radix_val_nonneg(body, base as int);
        assert(body.subrange(0, 0) =~= Seq::<char>::empty());
    }
    let mut acc: u64 = 0;
    let mut i: usize = 0;
    while i < p
        invariant
            0 <= i <= p < s.len() <= usize::MAX,
            s == num_str@,
            body == s.subrange(0, p as int),
            2 <= base <= 36,
            all_radix_digits(body, base as int),
            radix_val(body, base as int) <= i64::MAX,
            acc == radix_val(body.subrange(0, i as int), base as int),
            acc <= i64::MAX,
        decreases p - i,
    {
        proof {
            assert(s[i as int] == body[i as int]);
            let pre = body.subrange(0, i as int);
            let post = body.subrange(0, i + 1);
            assert(post.drop_last() =~= pre);
            assert(radix_val(post, base as int) == radix_val(pre, base as int) * (base as int)
                + radix_digit_val(body[i as int]));
            lemma_radix_val_prefix_le(body, base as int, i + 1);
            lemma_radix_val_nonneg(pre, base as int);
            assert(radix_val(pre, base as int) * (base as int) <= radix_val(pre, base as int) * 36)
                by (nonlinear_arith)
                requires
                    radix_val(pre, base as int) >= 0,
                    base <= 36,
            ;
        }
        let c = num_str.get_char(i) as u32;
        let d: u64 = if 48 <= c && c <= 57 {
            (c - 48) as u64
        } else if 97 <= c && c <= 122 {
            (c - 97 + 10) as u64
        } else if 65 <= c && c <= 90 {
            (c - 65 + 10) as u64
        } else {
            0
        };
        acc = acc * base + d;
        i = i + 1;
    }
    proof {
        assert(body.subrange(0, p as int) =~= body);
    }
    let mut out: Vec<char> = Vec::new();
    push_base_digits(acc, to_base as u64, &mut out);
    proof {
        assert(out@ =~= base_str(numeral_value(s) as nat, to_base as nat));
    }
    chars_to_string(&out)
}

} // verus!
