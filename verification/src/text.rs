//! Shared text helpers: decimal digits, decimal rendering of integers, and
//! character-wise string comparison.

use vstd::prelude::*;

verus! {

/// `c` is a decimal digit.
pub open spec fn is_dec_digit(c: char) -> bool {
    '0' <= c <= '9'
}

/// Every character of `s` is a decimal digit.
pub open spec fn all_dec_digits(s: Seq<char>) -> bool {
    forall|i: int| 0 <= i < s.len() ==> is_dec_digit(#[trigger] s[i])
}

/// Numeric value of one digit character.
pub open spec fn digit_val(c: char) -> int {
    c as int - '0' as int
}

/// The digit character for a value below ten.
pub open spec fn digit_char(d: int) -> char {
    ((d + '0' as int) as u8) as char
}

/// Value of a run of decimal digits, most significant first.
pub open spec fn dec_val(s: Seq<char>) -> int
    decreases s.len(),
{
    if s.len() == 0 {
        0
    } else {
        dec_val(s.drop_last()) * 10 + digit_val(s.last())
    }
}

/// The canonical decimal rendering of `n`: no sign, no leading zero except
/// for the single digit of zero itself.
pub open spec fn dec_str(n: nat) -> Seq<char>
    decreases n,
{
    if n < 10 {
        seq![digit_char(n as int)]
    } else {
        dec_str(n / 10).push(digit_char((n % 10) as int))
    }
}

/// Extending a digit run on the right multiplies its value by ten.
pub proof fn lemma_dec_val_snoc(s: Seq<char>, c: char)
    ensures
        dec_val(s.push(c)) == dec_val(s) * 10 + digit_val(c),
{
    assert(s.push(c).drop_last() =~= s);
}

/// `dec_str` renders exactly the value it was given.
pub proof fn lemma_dec_str_val(n: nat)
    ensures
        dec_val(dec_str(n)) == n,
        dec_str(n).len() >= 1,
        all_dec_digits(dec_str(n)),
    decreases n,
{
    if n < 10 {
        let c = digit_char(n as int);
        assert(seq![c].drop_last() =~= Seq::<char>::empty());
        assert(c as int == n + '0' as int);
        assert(dec_val(Seq::<char>::empty()) == 0);
        assert(dec_val(seq![c]) == dec_val(seq![c].drop_last()) * 10 + digit_val(seq![c].last()));
        assert(dec_val(seq![c]) == digit_val(c));
        assert(dec_val(dec_str(n)) == n);
    } else {
        lemma_dec_str_val(n / 10);
        lemma_dec_val_snoc(dec_str(n / 10), digit_char((n % 10) as int));
    }
}

/// Digit runs have non-negative values.
pub proof fn lemma_dec_val_nonneg(s: Seq<char>)
    requires
        all_dec_digits(s),
    ensures
        dec_val(s) >= 0,
    decreases s.len(),
{
    if s.len() > 0 {
        assert(all_dec_digits(s.drop_last()));
        lemma_dec_val_nonneg(s.drop_last());
    }
}

/// A prefix of a digit run never exceeds the whole run's value.
pub proof fn lemma_dec_val_prefix_le(s: Seq<char>, i: int)
    requires
        all_dec_digits(s),
        0 <= i <= s.len(),
    ensures
        dec_val(s.subrange(0, i)) <= dec_val(s),
    decreases s.len(),
{
    if i == s.len() {
        assert(s.subrange(0, i) =~= s);
    } else {
        assert(all_dec_digits(s.drop_last()));
        assert(s.subrange(0, i) =~= s.drop_last().subrange(0, i));
        lemma_dec_val_prefix_le(s.drop_last(), i);
        lemma_dec_val_nonneg(s.drop_last());
    }
}

/// The digit run of an optionally signed integer literal: everything after
/// the sign, if one is present.
pub open spec fn int_body(s: Seq<char>) -> Seq<char> {
    if s.len() > 0 && (s[0] == '-' || s[0] == '+') {
        s.subrange(1, s.len() as int)
    } else {
        s
    }
}

/// `s` is an optionally signed, non-empty run of decimal digits.
pub open spec fn is_int_text(s: Seq<char>) -> bool {
    int_body(s).len() > 0 && all_dec_digits(int_body(s))
}

/// The integer an optionally signed digit run denotes.
pub open spec fn int_text_val(s: Seq<char>) -> int {
    if s.len() > 0 && s[0] == '-' {
        -dec_val(int_body(s))
    } else {
        dec_val(int_body(s))
    }
}

/// The first position of `c` in `s` at or after `from`; the length if `c`
/// does not occur there.
pub open spec fn find_char(s: Seq<char>, from: int, c: char) -> int
    decreases s.len() - from,
{
    if from < 0 || from >= s.len() {
        s.len() as int
    } else if s[from] == c {
        from
    } else {
        find_char(s, from + 1, c)
    }
}

/// `find_char` stays between `from` and the length, finds only `c`, and
/// skips no earlier occurrence.
pub proof fn lemma_find_char(s: Seq<char>, from: int, c: char)
    requires
        0 <= from <= s.len(),
    ensures
        from <= find_char(s, from, c) <= s.len(),
        find_char(s, from, c) < s.len() ==> s[find_char(s, from, c)] == c,
        forall|j: int| from <= j < find_char(s, from, c) ==> s[j] != c,
    decreases s.len() - from,
{
    if from < s.len() && s[from] != c {
        lemma_find_char(s, from + 1, c);
    }
}

/// The position of the first `c` at or after `from`.
pub fn find_char_from(s: &str, from: usize, c: char) -> (r: usize)
    requires
        0 <= from <= s@.len(),
        s@.len() <= usize::MAX,
    ensures
        r == find_char(s@, from as int, c),
{
    let n = s.unicode_len();
    let mut i = from;
    while i < n
        invariant
            from <= i <= n,
            n == s@.len(),
            find_char(s@, from as int, c) == find_char(s@, i as int, c),
        decreases n - i,
    {
        if s.get_char(i) == c {
            return i;
        }
        i = i + 1;
    }
    n
}

/// The value of the digit run `s[from..to]`, which must fit `u32`.
pub fn parse_dec_u32(s: &str, from: usize, to: usize) -> (r: u32)
    requires
        0 <= from <= to <= s@.len(),
        s@.len() <= usize::MAX,
        all_dec_digits(s@.subrange(from as int, to as int)),
        dec_val(s@.subrange(from as int, to as int)) <= u32::MAX,
    ensures
        r == dec_val(s@.subrange(from as int, to as int)),
{
    let ghost body = s@.subrange(from as int, to as int);
    proof {
        lemma_dec_val_nonneg(body);
        assert(body.subrange(0, 0) =~= Seq::<char>::empty());
    }
    let mut acc: u64 = 0;
    let mut i = from;
    while i < to
        invariant
            from <= i <= to <= s@.len(),
            body == s@.subrange(from as int, to as int),
            all_dec_digits(body),
            dec_val(body) <= u32::MAX,
            acc == dec_val(body.subrange(0, i - from)),
            acc <= u32::MAX,
        decreases to - i,
    {
        proof {
            assert(s@[i as int] == body[i - from]);
            assert('0' <= body[i - from] <= '9');
            let pre = body.subrange(0, i - from);
            let post = body.subrange(0, i + 1 - from);
            assert(post.drop_last() =~= pre);
            lemma_dec_val_snoc(pre, s@[i as int]);
            lemma_dec_val_prefix_le(body, i + 1 - from);
            lemma_dec_val_nonneg(pre);
        }
        let d = (s.get_char(i) as u32 - 48) as u64;
        acc = acc * 10 + d;
        i = i + 1;
    }
    proof {
        assert(body.subrange(0, to - from) =~= body);
    }
    acc as u32
}

/// Compares two string slices character by character.
pub fn str_eq(a: &str, b: &str) -> (r: bool)
    ensures
        r == (a@ == b@),
{
    let alen = a.unicode_len();
    let blen = b.unicode_len();
    if alen != blen {
        assert(a@ != b@) by {
            assert(a@.len() != b@.len());
        }
        return false;
    }
    let mut i: usize = 0;
    while i < alen
        invariant
            0 <= i <= alen,
            alen == a@.len() == b@.len(),
            forall|j: int| 0 <= j < i ==> a@[j] == b@[j],
        decreases alen - i,
    {
        if a.get_char(i) != b.get_char(i) {
            return false;
        }
        i = i + 1;
    }
    proof {
        assert(a@ =~= b@);
    }
    true
}

/// Relies on `core::iter::Iterator::collect`, which gathers the characters
/// of the vector, in order, into a `String`.
#[verifier::external_body]
pub fn chars_to_string(v: &Vec<char>) -> (r: String)
    ensures
        r@ == v@,
{
    v.iter().collect()
}

/// Appends the decimal rendering of `n` to `out`.
pub fn push_dec_u64(n: u64, out: &mut Vec<char>)
    ensures
        final(out)@ == old(out)@ + dec_str(n as nat),
    decreases n,
{
    if n < 10 {
        out.push((n as u8 + 48) as char);
        assert(old(out)@ + dec_str(n as nat) =~= final(out)@);
    } else {
        push_dec_u64(n / 10, out);
        let d = (n % 10) as u8;
        out.push((d + 48) as char);
        assert(old(out)@ + dec_str(n as nat) =~= final(out)@);
    }
}

/// `s` left-padded with zeros to width `w`.
pub open spec fn zero_pad(s: Seq<char>, w: int) -> Seq<char> {
    if s.len() >= w {
        s
    } else {
        Seq::new((w - s.len()) as nat, |i: int| '0') + s
    }
}

/// Appends the decimal rendering of `n`, left-padded with zeros to `width`.
pub fn push_dec_padded(n: u64, width: usize, out: &mut Vec<char>)
    ensures
        final(out)@ == old(out)@ + zero_pad(dec_str(n as nat), width as int),
{
    let mut digs: Vec<char> = Vec::new();
    push_dec_u64(n, &mut digs);
    let needed: usize = if digs.len() >= width {
        0
    } else {
        width - digs.len()
    };
    let mut k: usize = 0;
    while k < needed
        invariant
            0 <= k <= needed,
            out@ == old(out)@ + Seq::new(k as nat, |i: int| '0'),
        decreases needed - k,
    {
        out.push('0');
        proof {
            assert(out@ =~= old(out)@ + Seq::new((k + 1) as nat, |i: int| '0'));
        }
        k = k + 1;
    }
    proof {
        assert(Seq::new(0nat, |i: int| '0') =~= Seq::<char>::empty());
        assert(old(out)@ + Seq::new(0nat, |i: int| '0') =~= old(out)@);
    }
    out.append(&mut digs);
    proof {
        assert(out@ =~= old(out)@ + zero_pad(dec_str(n as nat), width as int));
    }
}

/// The decimal rendering of `n` as a fresh string.
pub fn u64_to_string(n: u64) -> (r: String)
    ensures
        r@ == dec_str(n as nat),
{
    let mut v: Vec<char> = Vec::new();
    push_dec_u64(n, &mut v);
    assert(v@ =~= dec_str(n as nat));
    chars_to_string(&v)
}

} // verus!
