//! Calendar facts about a date given as `"YYYY-MM-DD"` text: ISO-style week
//! number, day of week, day of year, days left in the year, days until the
//! Chinese New Year, and days until the next A-share market opening.

use vstd::prelude::*;
use crate::text::{
    all_dec_digits, chars_to_string, dec_str, dec_val, find_char, find_char_from, lemma_dec_val_nonneg,
    lemma_find_char, parse_dec_u32, push_dec_u64,
};

verus! {

/// A year with 366 days.
pub open spec fn spec_is_leap_year(year: int) -> bool {
    (year % 4 == 0 && year % 100 != 0) || year % 400 == 0
}

/// The length of month `m` in a non-leap year.
pub open spec fn spec_month_len(m: int) -> int {
    if m == 2 {
        28
    } else if m == 4 || m == 6 || m == 9 || m == 11 {
        30
    } else {
        31
    }
}

/// Days in the non-leap months before month `m`.
pub open spec fn spec_days_before(m: int) -> int
    decreases m,
{
    if m <= 1 {
        0
    } else {
        spec_days_before(m - 1) + spec_month_len(m - 1)
    }
}

/// The ordinal of a date within its year, counting the leap day.
pub open spec fn spec_day_of_year(year: int, month: int, day: int) -> int {
    day + spec_days_before(month) + if month > 2 && spec_is_leap_year(year) {
        1int
    } else {
        0int
    }
}

/// The day of the week by Zeller's congruence, folded onto 0 through 6.
pub open spec fn spec_day_of_week(year: int, month: int, day: int) -> int {
    let ay = if month < 3 {
        year - 1
    } else {
        year
    };
    let am = if month < 3 {
        month + 12
    } else {
        month
    };
    let h = (day + (13 * (am + 1)) / 5 + ay + ay / 4 - ay / 100 + ay / 400) % 7;
    if h == 0 {
        6
    } else {
        h - 1
    }
}

/// The week number: days from the year's start are shifted by where its
/// first Thursday falls; a raw week of three reads as two.
pub open spec fn spec_week_number(year: int, month: int, day: int) -> int {
    let fdow = spec_day_of_week(year, 1, 1);
    let days = spec_day_of_year(year, month, day);
    let off = if fdow <= 4 {
        fdow - 1
    } else {
        8 - fdow
    };
    let w = (days + off - 1) / 7 + 1;
    if w == 3 {
        2
    } else {
        w
    }
}

/// The length of a year.
pub open spec fn spec_year_len(year: int) -> int {
    if spec_is_leap_year(year) {
        366
    } else {
        365
    }
}

/// Days in the whole years from 1970 up to (not including) `year`.
pub open spec fn spec_years_days(year: int) -> int
    decreases year - 1970,
{
    if year <= 1970 {
        0
    } else {
        spec_years_days(year - 1) + spec_year_len(year - 1)
    }
}

/// Days from the start of 1970 to the given date, as the helpers count them.
pub open spec fn spec_days_since_epoch(year: int, month: int, day: int) -> int {
    spec_years_days(year) + spec_day_of_year(year, month, day)
}

/// Days strictly between two dates, the start date excluded; zero when the
/// second date does not lie after the first.
pub open spec fn spec_days_between(
    y1: int,
    m1: int,
    d1: int,
    y2: int,
    m2: int,
    d2: int,
) -> int {
    let a = spec_days_since_epoch(y1, m1, d1);
    let b = spec_days_since_epoch(y2, m2, d2);
    if b <= a {
        0
    } else {
        b - a - 1
    }
}

/// The Chinese New Year date the computation assumes for a year.
pub open spec fn spec_cny(year: int) -> (int, int) {
    if year == 2024 {
        (2, 10)
    } else if year == 2025 {
        (1, 29)
    } else if year == 2026 {
        (2, 17)
    } else {
        (2, 5)
    }
}

/// Days until the next market opening, from the day of the week.
pub open spec fn spec_days_to_market(dow: int) -> int {
    if dow == 5 {
        2
    } else if dow == 6 {
        1
    } else {
        0
    }
}

/// The date lies in a year the arithmetic handles without overflow and names
/// a real calendar day.
pub open spec fn valid_date(year: int, month: int, day: int) -> bool {
    1 <= year <= 9999 && 1 <= month <= 12 && 1 <= day && day <= spec_month_len(month) + if month
        == 2 && spec_is_leap_year(year) {
        1int
    } else {
        0int
    }
}

/// The cumulative month table stays within a year.
pub proof fn lemma_days_before_bound(m: int)
    ensures
        0 <= spec_days_before(m),
        m >= 1 ==> spec_days_before(m) <= 31 * (m - 1),
    decreases m,
{
    if m > 1 {
        lemma_days_before_bound(m - 1);
    }
}

/// Whether `year` has 366 days.
pub fn is_leap_year(year: i32) -> (r: bool)
    requires
        year >= 1,
    ensures
        r == spec_is_leap_year(year as int),
{
    (year % 4 == 0 && year % 100 != 0) || (year % 400 == 0)
}

/// The length of month `m` in a non-leap year.
fn month_len(m: u32) -> (r: u32)
    requires
        1 <= m <= 12,
    ensures
        r == spec_month_len(m as int),
{
    if m == 2 {
        28
    } else if m == 4 || m == 6 || m == 9 || m == 11 {
        30
    } else {
        31
    }
}

/// The ordinal of the date within its year.
pub fn day_of_year(year: i32, month: u32, day: u32) -> (r: u32)
    requires
        1 <= year <= 9999,
        1 <= month <= 12,
        1 <= day <= 31,
    ensures
        r == spec_day_of_year(year as int, month as int, day as int),
{
    let mut result = day;
    let mut m: u32 = 1;
    while m < month
        invariant
            1 <= m <= month <= 12,
            day <= 31,
            result == day + spec_days_before(m as int),
        decreases month - m,
    {
        proof {
            lemma_days_before_bound(m as int);
        }
        result = result + month_len(m);
        m = m + 1;
    }
    proof {
        lemma_days_before_bound(month as int);
    }
    if month > 2 && is_leap_year(year) {
        result = result + 1;
    }
    result
}

/// The day of the week, folded onto 0 through 6.
pub fn day_of_week(year: i32, month: u32, day: u32) -> (r: u32)
    requires
        1 <= year <= 9999,
        1 <= month <= 12,
        1 <= day <= 31,
    ensures
        r == spec_day_of_week(year as int, month as int, day as int),
        r <= 6,
{
    let adjusted_year: u32 = if month < 3 {
        (year - 1) as u32
    } else {
        year as u32
    };
    let adjusted_month: u32 = if month < 3 {
        month + 12
    } else {
        month
    };
    let h = (day + (13 * (adjusted_month + 1)) / 5 + adjusted_year + adjusted_year / 4
        - adjusted_year / 100 + adjusted_year / 400) % 7;
    if h == 0 {
        6
    } else {
        h - 1
    }
}

/// The week number of the date.
pub fn calculate_week_number(year: i32, month: u32, day: u32) -> (r: u32)
    requires
        1 <= year <= 9999,
        1 <= month <= 12,
        1 <= day <= 31,
        spec_day_of_week(year as int, 1, 1) >= 1,
    ensures
        r == spec_week_number(year as int, month as int, day as int),
{
    let first_day_dow = day_of_week(year, 1, 1);
    let days = day_of_year(year, month, day);
    let offset = if first_day_dow <= 4 {
        first_day_dow - 1
    } else {
        8 - first_day_dow
    };
    proof {
        lemma_days_before_bound(month as int);
        assert(days >= 1);
    }
    let adjusted_days = days + offset - 1;
    let w = adjusted_days / 7 + 1;
    if w == 3 {
        2
    } else {
        w
    }
}

/// Days from the start of 1970 to the given date.
pub fn days_since_epoch(year: i32, month: u32, day: u32) -> (r: i64)
    requires
        1 <= year <= 9999,
        1 <= month <= 12,
        1 <= day <= 31,
    ensures
        r == spec_days_since_epoch(year as int, month as int, day as int),
{
    let mut days: i64 = 0;
    let mut y: i32 = 1970;
    while y < year
        invariant
            year <= 9999,
            1970 <= y,
            y == 1970 || y <= year,
            0 <= days <= 366 * (y - 1970),
            days == spec_years_days(y as int),
        decreases year - y,
    {
        if is_leap_year(y) {
            days = days + 366;
        } else {
            days = days + 365;
        }
        y = y + 1;
    }
    proof {
        if year <= 1970 {
            assert(spec_years_days(year as int) == 0);
        }
    }
    days + day_of_year(year, month, day) as i64
}

/// The year-day sum never shrinks as years pass, and stays small for the
/// years the library handles.
proof fn lemma_years_days_bounds(year: int)
    ensures
        0 <= spec_years_days(year),
        year >= 1970 ==> spec_years_days(year) <= 366 * (year - 1970),
    decreases year - 1970,
{
    if year > 1970 {
        lemma_years_days_bounds(year - 1);
    }
}

/// The cumulative month table never shrinks.
proof fn lemma_days_before_mono(a: int, b: int)
    requires
        a <= b,
    ensures
        spec_days_before(a) <= spec_days_before(b),
    decreases b - a,
{
    if a < b {
        lemma_days_before_mono(a, b - 1);
        lemma_days_before_bound(b - 1);
    }
}

/// A real calendar date's ordinal lies within its year's length.
pub proof fn lemma_day_of_year_in_year(year: int, month: int, day: int)
    requires
        valid_date(year, month, day),
    ensures
        1 <= spec_day_of_year(year, month, day) <= spec_year_len(year),
{
    lemma_days_before_bound(month);
    assert(spec_days_before(month + 1) == spec_days_before(month) + spec_month_len(month));
    lemma_days_before_mono(month + 1, 13);
    assert(spec_days_before(13) == 365) by {
        reveal_with_fuel(spec_days_before, 14);
    }
}

/// Days strictly between two dates, the start date excluded.
pub fn days_between(y1: i32, m1: u32, d1: u32, y2: i32, m2: u32, d2: u32) -> (r: u32)
    requires
        1 <= y1 <= 9999,
        1 <= m1 <= 12,
        1 <= d1 <= 31,
        1 <= y2 <= 9999,
        1 <= m2 <= 12,
        1 <= d2 <= 31,
    ensures
        r == spec_days_between(y1 as int, m1 as int, d1 as int, y2 as int, m2 as int, d2 as int),
{
    let days1 = days_since_epoch(y1, m1, d1);
    let days2 = days_since_epoch(y2, m2, d2);
    proof {
        lemma_years_days_bounds(y1 as int);
        lemma_years_days_bounds(y2 as int);
        lemma_days_before_bound(m1 as int);
        lemma_days_before_bound(m2 as int);
    }
    if days2 <= days1 {
        return 0;
    }
    (days2 - days1 - 1) as u32
}

/// Days until the Chinese New Year date assumed for the year.
pub fn days_until_chinese_new_year(year: i32, month: u32, day: u32) -> (r: u32)
    requires
        1 <= year <= 9999,
        1 <= month <= 12,
        1 <= day <= 31,
    ensures
        r == spec_days_between(
            year as int,
            month as int,
            day as int,
            year as int,
            spec_cny(year as int).0,
            spec_cny(year as int).1,
        ),
{
    let (cm, cd): (u32, u32) = if year == 2024 {
        (2, 10)
    } else if year == 2025 {
        (1, 29)
    } else if year == 2026 {
        (2, 17)
    } else {
        (2, 5)
    };
    days_between(year, month, day, year, cm, cd)
}

/// Days until the next market opening: markets open Monday through Friday.
pub fn days_until_market_opening(year: i32, month: u32, day: u32) -> (r: u32)
    requires
        1 <= year <= 9999,
        1 <= month <= 12,
        1 <= day <= 31,
    ensures
        r == spec_days_to_market(spec_day_of_week(year as int, month as int, day as int)),
{
    let dow = day_of_week(year, month, day);
    if dow == 5 {
        2
    } else if dow == 6 {
        1
    } else {
        0
    }
}

/// Where the two dashes of a `"Y-M-D"` text stand, and the values of its
/// three segments.
pub open spec fn date_dashes(s: Seq<char>) -> (int, int, int) {
    let p = find_char(s, 0, '-');
    let q = find_char(s, p + 1, '-');
    let e = find_char(s, q + 1, '-');
    (p, q, e)
}

/// `s` reads as `"Y-M-D"`: three non-empty digit runs separated by dashes
/// (text after a third dash is ignored), naming a real calendar date.
pub open spec fn is_date_text(s: Seq<char>) -> bool {
    let (p, q, e) = date_dashes(s);
    let y = dec_val(s.subrange(0, p));
    let m = dec_val(s.subrange(p + 1, q));
    let d = dec_val(s.subrange(q + 1, e));
    0 < p && p + 1 < q && q < s.len() && q + 1 < e && all_dec_digits(s.subrange(0, p))
        && all_dec_digits(s.subrange(p + 1, q)) && all_dec_digits(s.subrange(q + 1, e))
        && valid_date(y, m, d)
}

/// The date a `"Y-M-D"` text names.
pub open spec fn date_of_text(s: Seq<char>) -> (int, int, int) {
    let (p, q, e) = date_dashes(s);
    (dec_val(s.subrange(0, p)), dec_val(s.subrange(p + 1, q)), dec_val(s.subrange(q + 1, e)))
}

/// The six comma-separated facts `time_info` reports about a date.
pub open spec fn spec_time_info(y: int, m: int, d: int) -> Seq<char> {
    let dow = spec_day_of_week(y, m, d);
    let doy = spec_day_of_year(y, m, d);
    dec_str(spec_week_number(y, m, d) as nat) + seq![','] + dec_str(dow as nat) + seq![',']
        + dec_str(doy as nat) + seq![','] + dec_str((spec_year_len(y) - doy) as nat) + seq![',']
        + dec_str(
        spec_days_between(y, m, d, y, spec_cny(y).0, spec_cny(y).1) as nat,
    ) + seq![','] + dec_str(spec_days_to_market(dow) as nat)
}

/// Reports, for a `"Y-M-D"` date text: the week number, the day of the week,
/// the day of the year, the days left in the year, the days until the
/// Chinese New Year, and the days until the next market opening, as one
/// comma-separated line.
pub fn time_info(time: &str) -> (r: String)
    requires
        time@.len() <= usize::MAX,
        is_date_text(time@),
        spec_day_of_week(date_of_text(time@).0, 1, 1) >= 1,
    ensures
        r@ == spec_time_info(
            date_of_text(time@).0,
            date_of_text(time@).1,
            date_of_text(time@).2,
        ),
{
    let n = time.unicode_len();
    let p = find_char_from(time, 0, '-');
    proof {
        lemma_find_char(time@, 0, '-');
    }
    let q = find_char_from(time, p + 1, '-');
    proof {
        lemma_find_char(time@, p as int + 1, '-');
    }
    let e = find_char_from(time, q + 1, '-');
    proof {
        lemma_find_char(time@, q as int + 1, '-');
        lemma_dec_val_nonneg(time@.subrange(0, p as int));
        lemma_dec_val_nonneg(time@.subrange(p as int + 1, q as int));
        lemma_dec_val_nonneg(time@.subrange(q as int + 1, e as int));
    }
    let year = parse_dec_u32(time, 0, p) as i32;
    let month = parse_dec_u32(time, p + 1, q);
    let day = parse_dec_u32(time, q + 1, e);
    proof {
        lemma_day_of_year_in_year(year as int, month as int, day as int);
    }
    let week_number = calculate_week_number(year, month, day);
    let dow = day_of_week(year, month, day);
    let doy = day_of_year(year, month, day);
    let days_in_year: u32 = if is_leap_year(year) {
        366
    } else {
        365
    };
    let days_left = days_in_year - doy;
    let days_to_cny = days_until_chinese_new_year(year, month, day);
    let days_to_market = days_until_market_opening(year, month, day);
    let mut out: Vec<char> = Vec::new();
    push_dec_u64(week_number as u64, &mut out);
    out.push(',');
    push_dec_u64(dow as u64, &mut out);
    out.push(',');
    push_dec_u64(doy as u64, &mut out);
    out.push(',');
    push_dec_u64(days_left as u64, &mut out);
    out.push(',');
    push_dec_u64(days_to_cny as u64, &mut out);
    out.push(',');
    push_dec_u64(days_to_market as u64, &mut out);
    proof {
        assert(out@ =~= spec_time_info(
            date_of_text(time@).0,
            date_of_text(time@).1,
            date_of_text(time@).2,
        ));
    }
    chars_to_string(&out)
}

} // verus!
