//! The retirement date, age and delay that the staged delayed-retirement
//! policy gives a worker, from a `"YYYY-MM"` birth text and the worker's
//! category.

use vstd::prelude::*;
use crate::text::{
    all_dec_digits, chars_to_string, dec_str, dec_val, find_char, find_char_from,
    lemma_dec_val_nonneg, lemma_find_char, parse_dec_u32, push_dec_padded, push_dec_u64, str_eq,
    zero_pad,
};

verus! {

/// Base retirement age, delay months added per year, and capped age for a
/// worker category.
pub open spec fn retire_params(tp: Seq<char>) -> (int, int, int) {
    if tp == "男职工"@ {
        (60int, 3int, 63int)
    } else if tp == "原法定退休年龄55周岁女职工"@ {
        (55int, 3int, 58int)
    } else {
        (50int, 6int, 55int)
    }
}

/// `tp` names one of the three worker categories.
pub open spec fn is_person_type(tp: Seq<char>) -> bool {
    tp == "男职工"@ || tp == "原法定退休年龄55周岁女职工"@ || tp
        == "原法定退休年龄50周岁女职工"@
}

/// Total delay in months: none for workers who reach the base age before the
/// policy starts in 2025, else the per-year delay up to the capped age.
pub open spec fn spec_delay_months(birth_year: int, tp: Seq<char>) -> int {
    let (base, per, cap) = retire_params(tp);
    if birth_year + base >= 2025 {
        per * (cap - base)
    } else {
        0
    }
}

/// The `"YYYY-MM, AA.AA, D"` line: retirement date, retirement age with two
/// decimals, and total delay months.
pub open spec fn spec_retire_text(birth_year: int, birth_month: int, tp: Seq<char>) -> Seq<char> {
    let (base, per, cap) = retire_params(tp);
    let total = spec_delay_months(birth_year, tp);
    let ry0 = birth_year + base + total / 12;
    let rm0 = birth_month + total % 12;
    let ry = if rm0 > 12 {
        ry0 + rm0 / 12
    } else {
        ry0
    };
    let rm = if rm0 > 12 {
        rm0 % 12
    } else {
        rm0
    };
    let hundredths = base * 100 + (total * 100) / 12;
    zero_pad(dec_str(ry as nat), 4) + seq!['-'] + zero_pad(dec_str(rm as nat), 2) + seq![
        ',',
        ' ',
    ] + dec_str((hundredths / 100) as nat) + seq!['.'] + zero_pad(
        dec_str((hundredths % 100) as nat),
        2,
    ) + seq![',', ' '] + dec_str(total as nat)
}

/// The first two dash-separated segments of `s`: year and month digit runs.
pub open spec fn birth_parts(s: Seq<char>) -> (int, int) {
    let p = find_char(s, 0, '-');
    let q = find_char(s, p + 1, '-');
    (p, q)
}

/// `s` begins `"YYYY-MM"`: two non-empty digit runs, a sane year and month.
pub open spec fn is_birth_text(s: Seq<char>) -> bool {
    let (p, q) = birth_parts(s);
    let y = dec_val(s.subrange(0, p));
    let m = dec_val(s.subrange(p + 1, q));
    0 < p && p + 1 < q && all_dec_digits(s.subrange(0, p)) && all_dec_digits(
        s.subrange(p + 1, q),
    ) && 1 <= y <= 9999 && 1 <= m <= 12
}

/// The birth year and month a `"YYYY-MM"` text names.
pub open spec fn birth_of_text(s: Seq<char>) -> (int, int) {
    let (p, q) = birth_parts(s);
    (dec_val(s.subrange(0, p)), dec_val(s.subrange(p + 1, q)))
}

/// Computes the retirement date, age and delay for a worker born as `time`
/// says, of the category `tp` names.
#[verifier::rlimit(60)]
pub fn retire_time(time: &str, tp: &str) -> (r: String)
    requires
        time@.len() <= usize::MAX,
        is_birth_text(time@),
        is_person_type(tp@),
    ensures
        r@ == spec_retire_text(birth_of_text(time@).0, birth_of_text(time@).1, tp@),
{
    let p = find_char_from(time, 0, '-');
    proof {
        lemma_find_char(time@, 0, '-');
    }
    let q = find_char_from(time, p + 1, '-');
    proof {
        lemma_find_char(time@, p as int + 1, '-');
        lemma_dec_val_nonneg(time@.subrange(0, p as int));
        lemma_dec_val_nonneg(time@.subrange(p as int + 1, q as int));
    }
    let birth_year = parse_dec_u32(time, 0, p);
    let birth_month = parse_dec_u32(time, p + 1, q);
    let (base, delay_months_per_year, max_retirement_age): (u32, u32, u32) = if str_eq(
        tp,
        "男职工",
    ) {
        (60, 3, 63)
    } else if str_eq(tp, "原法定退休年龄55周岁女职工") {
        (55, 3, 58)
    } else {
        (50, 6, 55)
    };
    let mut total_delay_months: u32 = 0;
    let mut current_age = base;
    if birth_year + base >= 2025 {
        while current_age < max_retirement_age
            invariant
                base <= current_age <= max_retirement_age,
                max_retirement_age - base <= 5,
                delay_months_per_year <= 6,
                total_delay_months <= 30,
                total_delay_months == delay_months_per_year * (current_age - base),
            decreases max_retirement_age - current_age,
        {
            proof {
                let per = delay_months_per_year as int;
                let c = current_age as int;
                let b = base as int;
                assert(per * ((c + 1) - b) == per * (c - b) + per) by (nonlinear_arith);
                assert(per * ((c + 1) - b) <= 30) by (nonlinear_arith)
                    requires
                        per <= 6,
                        0 <= (c + 1) - b <= 5,
                ;
            }
            total_delay_months = total_delay_months + delay_months_per_year;
            current_age = current_age + 1;
        }
    }
    let mut retirement_year = birth_year + base + total_delay_months / 12;
    let mut retirement_month = birth_month + total_delay_months % 12;
    if retirement_month > 12 {
        retirement_year = retirement_year + retirement_month / 12;
        retirement_month = retirement_month % 12;
    }
    let hundredths = base * 100 + (total_delay_months * 100) / 12;
    let mut out: Vec<char> = Vec::new();
    push_dec_padded(retirement_year as u64, 4, &mut out);
    out.push('-');
    push_dec_padded(retirement_month as u64, 2, &mut out);
    out.push(',');
    out.push(' ');
    push_dec_u64((hundredths / 100) as u64, &mut out);
    out.push('.');
    push_dec_padded((hundredths % 100) as u64, 2, &mut out);
    out.push(',');
    out.push(' ');
    push_dec_u64(total_delay_months as u64, &mut out);
    proof {
        assert(out@ =~= spec_retire_text(birth_of_text(time@).0, birth_of_text(time@).1, tp@));
    }
    chars_to_string(&out)
}

} // verus!
