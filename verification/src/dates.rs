//! Proleptic-Gregorian calendar dates: validity, day stepping, formatting
//! as `YYYY-MM-DD`, and parsing. Dates drive the daily salt rotation, the
//! query date ranges, and the retention cutoff.

use chrono::Datelike;
use vstd::prelude::*;
use crate::text;

verus! {

/// A calendar date. Valid dates (see [`valid_date`]) range from 0001-01-01
/// to 9999-12-31.
#[derive(Clone, Copy, PartialEq, Eq, Structural, Debug)]
pub struct Date {
    pub year: u32,
    pub month: u32,
    pub day: u32,
}

/// Gregorian leap-year rule.
pub open spec fn spec_is_leap_year(y: u32) -> bool {
    (y % 4 == 0 && y % 100 != 0) || y % 400 == 0
}

/// Number of days in a month of a year.
pub open spec fn spec_days_in_month(y: u32, m: u32) -> u32
    recommends
        1 <= m <= 12,
{
    if m == 2 {
        if spec_is_leap_year(y) {
            29
        } else {
            28
        }
    } else if m == 4 || m == 6 || m == 9 || m == 11 {
        30
    } else {
        31
    }
}

/// A well-formed date within the supported range.
pub open spec fn valid_date(d: Date) -> bool {
    &&& 1 <= d.year <= 9999
    &&& 1 <= d.month <= 12
    &&& 1 <= d.day <= spec_days_in_month(d.year, d.month)
}

/// Number of days in a month of a year.
pub fn days_in_month(y: u32, m: u32) -> (r: u32)
    ensures
        r == spec_days_in_month(y, m),
{
    if m == 2 {
        if (y % 4 == 0 && y % 100 != 0) || y % 400 == 0 {
            29
        } else {
            28
        }
    } else if m == 4 || m == 6 || m == 9 || m == 11 {
        30
    } else {
        31
    }
}

/// The day before, saturating at 0001-01-01.
pub open spec fn spec_prev_day(d: Date) -> Date {
    if d.day > 1 {
        Date { year: d.year, month: d.month, day: (d.day - 1) as u32 }
    } else if d.month > 1 {
        Date {
            year: d.year,
            month: (d.month - 1) as u32,
            day: spec_days_in_month(d.year, (d.month - 1) as u32),
        }
    } else if d.year > 1 {
        Date { year: (d.year - 1) as u32, month: 12, day: 31 }
    } else {
        d
    }
}

/// The day after, saturating at 9999-12-31.
pub open spec fn spec_next_day(d: Date) -> Date {
    if d.day < spec_days_in_month(d.year, d.month) {
        Date { year: d.year, month: d.month, day: (d.day + 1) as u32 }
    } else if d.month < 12 {
        Date { year: d.year, month: (d.month + 1) as u32, day: 1 }
    } else if d.year < 9999 {
        Date { year: (d.year + 1) as u32, month: 1, day: 1 }
    } else {
        d
    }
}

/// The day before, saturating at 0001-01-01.
pub fn prev_day(d: Date) -> (r: Date)
    requires
        valid_date(d),
    ensures
        r == spec_prev_day(d),
        valid_date(r),
{
    if d.day > 1 {
        Date { year: d.year, month: d.month, day: d.day - 1 }
    } else if d.month > 1 {
        Date { year: d.year, month: d.month - 1, day: days_in_month(d.year, d.month - 1) }
    } else if d.year > 1 {
        Date { year: d.year - 1, month: 12, day: 31 }
    } else {
        d
    }
}

/// The day after, saturating at 9999-12-31.
pub fn next_day(d: Date) -> (r: Date)
    requires
        valid_date(d),
    ensures
        r == spec_next_day(d),
        valid_date(r),
{
    if d.day < days_in_month(d.year, d.month) {
        Date { year: d.year, month: d.month, day: d.day + 1 }
    } else if d.month < 12 {
        Date { year: d.year, month: d.month + 1, day: 1 }
    } else if d.year < 9999 {
        Date { year: d.year + 1, month: 1, day: 1 }
    } else {
        d
    }
}

/// The date `n` days earlier, saturating at 0001-01-01.
pub open spec fn spec_sub_days(d: Date, n: nat) -> Date
    decreases n,
{
    if n == 0 {
        d
    } else {
        spec_sub_days(spec_prev_day(d), (n - 1) as nat)
    }
}

/// The date `n` days later, saturating at 9999-12-31.
pub open spec fn spec_add_days(d: Date, n: nat) -> Date
    decreases n,
{
    if n == 0 {
        d
    } else {
        spec_add_days(spec_next_day(d), (n - 1) as nat)
    }
}

/// The date `n` days earlier, saturating at 0001-01-01.
pub fn sub_days(d: Date, n: u32) -> (r: Date)
    requires
        valid_date(d),
        n <= 400,
    ensures
        r == spec_sub_days(d, n as nat),
        valid_date(r),
    decreases n,
{
    if n == 0 {
        d
    } else {
        sub_days(prev_day(d), n - 1)
    }
}

/// The date `n` days later, saturating at 9999-12-31.
pub fn add_days(d: Date, n: u32) -> (r: Date)
    requires
        valid_date(d),
        n <= 400,
    ensures
        r == spec_add_days(d, n as nat),
        valid_date(r),
    decreases n,
{
    if n == 0 {
        d
    } else {
        add_days(next_day(d), n - 1)
    }
}

/// Lexicographic order on dates: `a` is strictly before `b`.
pub open spec fn spec_date_lt(a: Date, b: Date) -> bool {
    if a.year != b.year {
        a.year < b.year
    } else if a.month != b.month {
        a.month < b.month
    } else {
        a.day < b.day
    }
}

/// Whether `a` is strictly before `b`.
pub fn date_lt(a: &Date, b: &Date) -> (r: bool)
    ensures
        r == spec_date_lt(*a, *b),
{
    if a.year != b.year {
        a.year < b.year
    } else if a.month != b.month {
        a.month < b.month
    } else {
        a.day < b.day
    }
}

/// The `YYYY-MM-DD` rendering of a date.
pub open spec fn spec_format_date(d: Date) -> Seq<char> {
    text::spec_dec_pad(d.year as u64, 4) + seq!['-'] + text::spec_dec_pad(d.month as u64, 2)
        + seq!['-'] + text::spec_dec_pad(d.day as u64, 2)
}

/// Render an unsigned integer in decimal, left-padded with zeros to `width`.
pub fn pad_dec(n: u64, width: usize) -> (r: Vec<char>)
    ensures
        r@ == text::spec_dec_pad(n, width as nat),
{
    let digits = text::dec_chars(n);
    let mut r: Vec<char> = Vec::new();
    let mut k: usize = 0;
    let pad: usize = if digits.len() >= width {
        0
    } else {
        width - digits.len()
    };
    while k < pad
        invariant
            0 <= k <= pad,
            r@ =~= Seq::new(k as nat, |i: int| '0'),
        decreases pad - k,
    {
        r.push('0');
        k = k + 1;
        proof {
            assert(r@ =~= Seq::new(k as nat, |i: int| '0'));
        }
    }
    let mut j: usize = 0;
    while j < digits.len()
        invariant
            0 <= j <= digits@.len(),
            r@ =~= Seq::new(pad as nat, |i: int| '0') + digits@.subrange(0, j as int),
        decreases digits@.len() - j,
    {
        r.push(digits[j]);
        j = j + 1;
        proof {
            assert(r@ =~= Seq::new(pad as nat, |i: int| '0') + digits@.subrange(0, j as int));
        }
    }
    proof {
        assert(digits@.subrange(0, digits@.len() as int) =~= digits@);
        assert(r@ =~= text::spec_dec_pad(n, width as nat));
    }
    r
}

/// Render a date as `YYYY-MM-DD`.
pub fn format_date(d: &Date) -> (r: String)
    ensures
        r@ == spec_format_date(*d),
{
    let mut chars = pad_dec(d.year as u64, 4);
    chars.push('-');
    let mut m = pad_dec(d.month as u64, 2);
    chars.append(&mut m);
    chars.push('-');
    let mut day = pad_dec(d.day as u64, 2);
    chars.append(&mut day);
    proof {
        assert(chars@ =~= spec_format_date(*d));
    }
    text::string_from_chars(chars.as_slice())
}

/// Whether a character sequence has the shape `YYYY-MM-DD`.
pub open spec fn date_shaped(s: Seq<char>) -> bool {
    &&& s.len() == 10
    &&& text::all_digits(s.subrange(0, 4))
    &&& s[4] == '-'
    &&& text::all_digits(s.subrange(5, 7))
    &&& s[7] == '-'
    &&& text::all_digits(s.subrange(8, 10))
}

/// The date denoted by a `YYYY-MM-DD` sequence, or `None` when the shape or
/// the calendar ranges are violated.
pub open spec fn spec_parse_date(s: Seq<char>) -> Option<Date> {
    if date_shaped(s) {
        let y = text::spec_dec_value(s.subrange(0, 4));
        let m = text::spec_dec_value(s.subrange(5, 7));
        let d = text::spec_dec_value(s.subrange(8, 10));
        if 1 <= y && 1 <= m <= 12 && 1 <= d && d <= spec_days_in_month(y as u32, m as u32) {
            Some(Date { year: y as u32, month: m as u32, day: d as u32 })
        } else {
            None
        }
    } else {
        None
    }
}

/// An all-digit sequence of length `n` denotes a value below ten to the `n`.
proof fn lemma_dec_value_upper(s: Seq<char>)
    requires
        text::all_digits(s),
    ensures
        0 <= text::spec_dec_value(s) < text::pow10(s.len()),
    decreases s.len(),
{
    if s.len() > 0 {
        assert(text::all_digits(s.drop_last()));
        lemma_dec_value_upper(s.drop_last());
        assert(s.last() <= '9');
    }
}

/// Parse a `YYYY-MM-DD` character sequence.
pub fn parse_date(s: &[char]) -> (r: Option<Date>)
    ensures
        r == spec_parse_date(s@),
        r is Some ==> valid_date(r->Some_0),
{
    if s.len() != 10 {
        return None;
    }
    if s[4] != '-' || s[7] != '-' {
        return None;
    }
    let ys = vstd::slice::slice_subrange(s, 0, 4);
    let ms = vstd::slice::slice_subrange(s, 5, 7);
    let ds = vstd::slice::slice_subrange(s, 8, 10);
    proof {
        assert(ys@ =~= s@.subrange(0, 4));
        assert(ms@ =~= s@.subrange(5, 7));
        assert(ds@ =~= s@.subrange(8, 10));
    }
    proof {
        reveal_with_fuel(text::pow10, 5);
        if text::all_digits(ys@) {
            lemma_dec_value_upper(ys@);
        }
        if text::all_digits(ms@) {
            lemma_dec_value_upper(ms@);
        }
        if text::all_digits(ds@) {
            lemma_dec_value_upper(ds@);
        }
    }
    let y = match text::parse_dec(ys, 9999) {
        Some(v) => v,
        None => {
            return None;
        },
    };
    let m = match text::parse_dec(ms, 99) {
        Some(v) => v,
        None => {
            return None;
        },
    };
    let d = match text::parse_dec(ds, 99) {
        Some(v) => v,
        None => {
            return None;
        },
    };
    if y < 1 || m < 1 || m > 12 || d < 1 {
        return None;
    }
    if (d as u32) > days_in_month(y as u32, m as u32) {
        return None;
    }
    Some(Date { year: y as u32, month: m as u32, day: d as u32 })
}

/// Count the days from `start` to `end`, refusing counts above `cap` and
/// reversed ranges.
pub fn days_between_capped(start: &Date, end: &Date, cap: u32) -> (r: Option<u32>)
    requires
        valid_date(*start),
        cap <= 400,
    ensures
        match r {
            Some(k) => k <= cap && spec_add_days(*start, k as nat) == *end,
            None => forall|k: nat| k <= cap ==> spec_add_days(*start, k) != *end,
        },
{
    let mut cur: Date = *start;
    let mut i: u32 = 0;
    while i <= cap
        invariant
            0 <= i <= cap + 1,
            cap <= 400,
            valid_date(cur),
            cur == spec_add_days(*start, i as nat),
            forall|k: nat| k < i ==> spec_add_days(*start, k) != *end,
        decreases cap + 1 - i,
    {
        if cur.year == end.year && cur.month == end.month && cur.day == end.day {
            proof {
                assert(cur == *end);
            }
            return Some(i);
        }
        proof {
            lemma_add_days_step(*start, i as nat);
        }
        cur = next_day(cur);
        i = i + 1;
    }
    None
}

/// Adding one more day steps the result of `spec_add_days` by one day.
proof fn lemma_add_days_step(d: Date, n: nat)
    ensures
        spec_add_days(d, n + 1) == spec_next_day(spec_add_days(d, n)),
    decreases n,
{
    if n == 0 {
        assert(spec_add_days(d, 1) == spec_add_days(spec_next_day(d), 0));
    } else {
        lemma_add_days_step(spec_next_day(d), (n - 1) as nat);
        assert(spec_add_days(d, n + 1) == spec_add_days(spec_next_day(d), n));
        assert(spec_add_days(d, n) == spec_add_days(spec_next_day(d), (n - 1) as nat));
    }
}

/// The `YYYY-MM-DD` rendering of a valid date is date-shaped: four digits,
/// a dash, two digits, a dash, two digits.
pub proof fn lemma_format_date_shaped(d: Date)
    requires
        valid_date(d),
    ensures
        date_shaped(spec_format_date(d)),
{
    reveal_with_fuel(text::pow10, 5);
    text::lemma_spec_dec_shape(d.year as u64, 4);
    text::lemma_spec_dec_shape(d.month as u64, 2);
    text::lemma_spec_dec_shape(d.day as u64, 2);
    let y = text::spec_dec_pad(d.year as u64, 4);
    let m = text::spec_dec_pad(d.month as u64, 2);
    let dd = text::spec_dec_pad(d.day as u64, 2);
    let s = spec_format_date(d);
    assert(y.len() == 4 && text::all_digits(y));
    assert(m.len() == 2 && text::all_digits(m));
    assert(dd.len() == 2 && text::all_digits(dd));
    assert(s.len() == 10);
    assert(s.subrange(0, 4) =~= y);
    assert(s[4] == '-');
    assert(s.subrange(5, 7) =~= m);
    assert(s[7] == '-');
    assert(s.subrange(8, 10) =~= dd);
}

/// Relies on `chrono::Utc::now` and chrono's `Datelike` accessors: the
/// current UTC civil date; `month` and `day` are documented to lie in
/// 1..=12 and 1..=31.
#[verifier::external_body]
fn today_raw() -> (r: (i64, u32, u32))
    ensures
        1 <= r.1 <= 12,
        1 <= r.2 <= 31,
{
    let d = chrono::Utc::now().date_naive();
    (d.year() as i64, d.month(), d.day())
}

/// Force a year-month-day triple into a valid date, leaving triples that
/// already denote a valid date unchanged.
pub fn clamp_date(y: i64, m: u32, d: u32) -> (r: Date)
    ensures
        valid_date(r),
        (1 <= y <= 9999 && 1 <= m <= 12 && 1 <= d <= spec_days_in_month(y as u32, m)) ==> r
            == (Date { year: y as u32, month: m, day: d }),
{
    let year: u32 = if y < 1 {
        1
    } else if y > 9999 {
        9999
    } else {
        y as u32
    };
    let month: u32 = if m < 1 {
        1
    } else if m > 12 {
        12
    } else {
        m
    };
    let dim = days_in_month(year, month);
    let day: u32 = if d < 1 {
        1
    } else if d > dim {
        dim
    } else {
        d
    };
    Date { year, month, day }
}

/// The current UTC date, as reported by the system clock.
pub fn today_utc() -> (r: Date)
    ensures
        valid_date(r),
{
    let (y, m, d) = today_raw();
    clamp_date(y, m, d)
}

} // verus!
