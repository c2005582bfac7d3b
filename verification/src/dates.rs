use vstd::prelude::*;
use crate::numbers::{two_digit_chars, four_digit_chars, push_two_digits,
    push_four_digits};
use crate::chars::{chars_of, string_of};
use chrono::{Datelike, Timelike};

verus! {

/// A civil timestamp, UTC, second resolution: the plain-value model of the
/// date values that run through the synchronizer.
#[derive(Clone, Copy, Debug, PartialEq, Eq, Structural)]
pub struct Timestamp {
    pub year: u32,
    pub month: u32,
    pub day: u32,
    pub hour: u32,
    pub minute: u32,
    pub second: u32,
}

pub open spec fn is_leap_year(y: int) -> bool {
    (y % 4 == 0 && y % 100 != 0) || y % 400 == 0
}

pub open spec fn days_in_month(y: int, m: int) -> int {
    if m == 2 {
        if is_leap_year(y) {
            29
        } else {
            28
        }
    } else if m == 4 || m == 6 || m == 9 || m == 11 {
        30
    } else {
        31
    }
}

pub open spec fn valid_date(y: int, m: int, d: int) -> bool {
    0 <= y <= 9999 && 1 <= m <= 12 && 1 <= d <= days_in_month(y, m)
}

/// A well-formed timestamp: a real calendar date and a time of day.
pub open spec fn ts_valid(t: Timestamp) -> bool {
    valid_date(t.year as int, t.month as int, t.day as int) && t.hour <= 23 && t.minute <= 59
        && t.second <= 59
}

pub open spec fn is_digit(c: char) -> bool {
    '0' <= c && c <= '9'
}

pub open spec fn digit_val(c: char) -> int {
    c as int - '0' as int
}

/// The number held by the digits of `s` in `[lo, hi)`, most significant first.
pub open spec fn digits_val(s: Seq<char>, lo: int, hi: int) -> int
    decreases hi - lo,
{
    if lo >= hi {
        0
    } else {
        digits_val(s, lo, hi - 1) * 10 + digit_val(s[hi - 1])
    }
}

pub open spec fn all_digits(s: Seq<char>, lo: int, hi: int) -> bool {
    forall|k: int| lo <= k < hi ==> is_digit(s[k])
}

/// Whether `s` is a well-formed date of the accepted date-only shape, with a
/// real calendar date.
pub open spec fn date_str_valid(s: Seq<char>) -> bool {
    &&& s.len() == 10
    &&& all_digits(s, 0, 4)
    &&& s[4] == '-'
    &&& all_digits(s, 5, 7)
    &&& s[7] == '-'
    &&& all_digits(s, 8, 10)
    &&& valid_date(digits_val(s, 0, 4), digits_val(s, 5, 7), digits_val(s, 8, 10))
}

/// Whether `s` is a well-formed date-time of the accepted shape.
pub open spec fn datetime_str_valid(s: Seq<char>) -> bool {
    &&& s.len() == 19
    &&& date_str_valid(s.take(10))
    &&& s[10] == ' '
    &&& all_digits(s, 11, 13)
    &&& s[13] == ':'
    &&& all_digits(s, 14, 16)
    &&& s[16] == ':'
    &&& all_digits(s, 17, 19)
    &&& digits_val(s, 11, 13) <= 23
    &&& digits_val(s, 14, 16) <= 59
    &&& digits_val(s, 17, 19) <= 59
}

/// What parsing a source date string yields: a timestamp for either accepted
/// shape, interpreted as UTC civil time, and no value otherwise.
pub open spec fn parse_date_spec(s: Seq<char>) -> Option<Timestamp> {
    if date_str_valid(s) {
        Some(
            Timestamp {
                year: digits_val(s, 0, 4) as u32,
                month: digits_val(s, 5, 7) as u32,
                day: digits_val(s, 8, 10) as u32,
                hour: 0,
                minute: 0,
                second: 0,
            },
        )
    } else if datetime_str_valid(s) {
        Some(
            Timestamp {
                year: digits_val(s, 0, 4) as u32,
                month: digits_val(s, 5, 7) as u32,
                day: digits_val(s, 8, 10) as u32,
                hour: digits_val(s, 11, 13) as u32,
                minute: digits_val(s, 14, 16) as u32,
                second: digits_val(s, 17, 19) as u32,
            },
        )
    } else {
        None
    }
}

fn is_digit_exec(c: char) -> (r: bool)
    ensures
        r == is_digit(c),
{
    '0' <= c && c <= '9'
}

/// Whether every character of `v` in `[lo, hi)` is a digit.
fn all_digits_exec(v: &Vec<char>, lo: usize, hi: usize) -> (r: bool)
    requires
        lo <= hi <= v@.len(),
    ensures
        r == all_digits(v@, lo as int, hi as int),
{
    let mut i: usize = lo;
    while i < hi
        invariant
            lo <= i <= hi <= v@.len(),
            forall|k: int| lo <= k < i ==> is_digit(v@[k]),
        decreases hi - i,
    {
        if !is_digit_exec(v[i]) {
            return false;
        }
        i += 1;
    }
    true
}

/// The number held by the digits of `v` in `[lo, hi)`.
fn digits_val_exec(v: &Vec<char>, lo: usize, hi: usize) -> (r: u32)
    requires
        lo <= hi <= v@.len(),
        hi - lo <= 4,
        all_digits(v@, lo as int, hi as int),
    ensures
        r == digits_val(v@, lo as int, hi as int),
        r <= 9999,
{
    let mut r: u32 = 0;
    let mut i: usize = lo;
    while i < hi
        invariant
            lo <= i <= hi <= v@.len(),
            hi - lo <= 4,
            all_digits(v@, lo as int, hi as int),
            r == digits_val(v@, lo as int, i as int),
            r <= 9999,
        decreases hi - i,
    {
        proof {
            lemma_digits_val_bound(v@, lo as int, i as int);
        }
        let c = v[i];
        let d: u32 = (c as u32) - ('0' as u32);
        proof {
            assert(is_digit(v@[i as int]));
            assert(d == digit_val(v@[i as int]));
        }
        r = r * 10 + d;
        i += 1;
    }
    r
}

proof fn lemma_digits_val_bound(s: Seq<char>, lo: int, hi: int)
    requires
        lo <= hi,
        all_digits(s, lo, hi),
        hi <= s.len(),
    ensures
        0 <= digits_val(s, lo, hi),
        hi - lo <= 4 ==> digits_val(s, lo, hi) < pow10_small(hi - lo),
    decreases hi - lo,
{
    if lo < hi {
        lemma_digits_val_bound(s, lo, hi - 1);
    }
}

pub open spec fn pow10_small(k: int) -> int {
    if k <= 0 {
        1
    } else if k == 1 {
        10
    } else if k == 2 {
        100
    } else if k == 3 {
        1000
    } else {
        10000
    }
}

/// A parsed timestamp is always well formed.
pub proof fn lemma_parse_date_valid(s: Seq<char>)
    ensures
        parse_date_spec(s) is Some ==> ts_valid(parse_date_spec(s)->0),
{
    if date_str_valid(s) {
        lemma_digits_val_bound(s, 0, 4);
        lemma_digits_val_bound(s, 5, 7);
        lemma_digits_val_bound(s, 8, 10);
    } else if datetime_str_valid(s) {
        lemma_date_prefix(s);
        lemma_digits_val_bound(s, 0, 4);
        lemma_digits_val_bound(s, 5, 7);
        lemma_digits_val_bound(s, 8, 10);
        lemma_digits_val_bound(s, 11, 13);
        lemma_digits_val_bound(s, 14, 16);
        lemma_digits_val_bound(s, 17, 19);
    }
}

/// Parses a source date string: the date-only shape yields midnight, the
/// date-time shape yields that time, anything else yields no value.
pub fn parse_date(date_str: &str) -> (r: Option<Timestamp>)
    ensures
        r == parse_date_spec(date_str@),
{
    let v = chars_of(date_str);
    if v.len() != 10 && v.len() != 19 {
        return None;
    }
    let date_ok = all_digits_exec(&v, 0, 4) && v[4] == '-' && all_digits_exec(&v, 5, 7) && v[7]
        == '-' && all_digits_exec(&v, 8, 10);
    if !date_ok {
        proof {
            lemma_not_date_prefix(v@);
        }
        return None;
    }
    let y = digits_val_exec(&v, 0, 4);
    let mo = digits_val_exec(&v, 5, 7);
    let d = digits_val_exec(&v, 8, 10);
    let cal_ok = 1 <= mo && mo <= 12 && 1 <= d && d <= days_in_month_exec(y, mo);
    if !cal_ok {
        proof {
            lemma_not_date_prefix(v@);
        }
        return None;
    }
    if v.len() == 10 {
        proof {
            assert(v@.take(10) =~= v@);
            assert(date_str_valid(v@));
        }
        return Some(Timestamp { year: y, month: mo, day: d, hour: 0, minute: 0, second: 0 });
    }
    proof {
        lemma_date_prefix(v@);
        assert(!date_str_valid(v@));
    }
    let time_ok = v[10] == ' ' && all_digits_exec(&v, 11, 13) && v[13] == ':' && all_digits_exec(
        &v,
        14,
        16,
    ) && v[16] == ':' && all_digits_exec(&v, 17, 19);
    if !time_ok {
        return None;
    }
    let h = digits_val_exec(&v, 11, 13);
    let mi = digits_val_exec(&v, 14, 16);
    let sec = digits_val_exec(&v, 17, 19);
    if h <= 23 && mi <= 59 && sec <= 59 {
        proof {
            let t = v@.take(10);
            assert(t.len() == 10);
            assert(t[4] == v@[4]);
            assert(t[7] == v@[7]);
            assert(date_str_valid(t));
            assert(datetime_str_valid(v@));
        }
        Some(Timestamp { year: y, month: mo, day: d, hour: h, minute: mi, second: sec })
    } else {
        None
    }
}

/// For a 19-character string, the date fields live in the 10-character prefix.
proof fn lemma_date_prefix(s: Seq<char>)
    requires
        s.len() == 19,
    ensures
        all_digits(s.take(10), 0, 4) == all_digits(s, 0, 4),
        all_digits(s.take(10), 5, 7) == all_digits(s, 5, 7),
        all_digits(s.take(10), 8, 10) == all_digits(s, 8, 10),
        digits_val(s.take(10), 0, 4) == digits_val(s, 0, 4),
        digits_val(s.take(10), 5, 7) == digits_val(s, 5, 7),
        digits_val(s.take(10), 8, 10) == digits_val(s, 8, 10),
{
    lemma_digits_val_agree(s.take(10), s, 0, 4);
    lemma_digits_val_agree(s.take(10), s, 5, 7);
    lemma_digits_val_agree(s.take(10), s, 8, 10);
}

/// When the first ten characters do not shape a valid date, neither string
/// form is valid.
proof fn lemma_not_date_prefix(s: Seq<char>)
    requires
        s.len() == 10 || s.len() == 19,
        s.len() >= 10 ==> !(all_digits(s, 0, 4) && s[4] == '-' && all_digits(s, 5, 7) && s[7] == '-'
            && all_digits(s, 8, 10) && valid_date(
            digits_val(s, 0, 4),
            digits_val(s, 5, 7),
            digits_val(s, 8, 10),
        )),
    ensures
        !date_str_valid(s),
        !datetime_str_valid(s),
{
    if s.len() == 19 {
        lemma_date_prefix(s);
        assert(s.take(10).len() == 10);
        assert(s.take(10)[4] == s[4]);
        assert(s.take(10)[7] == s[7]);
    }
}

proof fn lemma_digits_val_agree(a: Seq<char>, b: Seq<char>, lo: int, hi: int)
    requires
        0 <= lo <= hi,
        hi <= a.len(),
        hi <= b.len(),
        forall|k: int| lo <= k < hi ==> a[k] == b[k],
    ensures
        digits_val(a, lo, hi) == digits_val(b, lo, hi),
        all_digits(a, lo, hi) == all_digits(b, lo, hi),
    decreases hi - lo,
{
    if lo < hi {
        lemma_digits_val_agree(a, b, lo, hi - 1);
    }
}

/// The day count of a month; mirrors `days_in_month`.
pub fn days_in_month_exec(y: u32, m: u32) -> (r: u32)
    ensures
        r == days_in_month(y as int, m as int),
{
    if m == 2 {
        if (y % 4 == 0 && y % 100 != 0) || y % 400 == 0 {
            29
        } else {
            28
        }
    } else if m == 4 || m == 6 || m == 9 || m == 11 {
        30
    } else {
        31
    }
}

/// The date of `t` in the dashed form the rendered output carries.
pub open spec fn date_chars(t: Timestamp) -> Seq<char> {
    four_digit_chars(t.year as int) + seq!['-'] + two_digit_chars(t.month as int) + seq!['-']
        + two_digit_chars(t.day as int)
}

/// The full timestamp of `t` as one fixed-width sortable token.
pub open spec fn compact_chars(t: Timestamp) -> Seq<char> {
    four_digit_chars(t.year as int) + two_digit_chars(t.month as int) + two_digit_chars(
        t.day as int,
    ) + two_digit_chars(t.hour as int) + two_digit_chars(t.minute as int) + two_digit_chars(
        t.second as int,
    )
}

/// Formats the date of `t` in the dashed form.
pub fn format_date(t: &Timestamp) -> (r: String)
    requires
        ts_valid(*t),
    ensures
        r@ == date_chars(*t),
{
    let mut v: Vec<char> = Vec::new();
    push_four_digits(&mut v, t.year as u64);
    v.push('-');
    push_two_digits(&mut v, t.month as u64);
    v.push('-');
    push_two_digits(&mut v, t.day as u64);
    proof {
        assert(v@ =~= date_chars(*t));
    }
    string_of(&v)
}

/// Formats `t` as the fixed-width token filenames start with.
pub fn format_compact(t: &Timestamp) -> (r: String)
    requires
        ts_valid(*t),
    ensures
        r@ == compact_chars(*t),
{
    let mut v: Vec<char> = Vec::new();
    push_four_digits(&mut v, t.year as u64);
    push_two_digits(&mut v, t.month as u64);
    push_two_digits(&mut v, t.day as u64);
    push_two_digits(&mut v, t.hour as u64);
    push_two_digits(&mut v, t.minute as u64);
    push_two_digits(&mut v, t.second as u64);
    proof {
        assert(v@ =~= compact_chars(*t));
    }
    string_of(&v)
}

/// The raw calendar fields of a wall-clock reading, before validation.
#[derive(Clone, Copy, Debug)]
pub struct TimeParts {
    pub year: i32,
    pub month: u32,
    pub day: u32,
    pub hour: u32,
    pub minute: u32,
    pub second: u32,
}

/// Relies on chrono's Utc::now with Datelike/Timelike accessors: month is
/// 1..=12, day 1..=31, hour 0..=23, minute and second 0..=59, as their
/// documentation states; the year carries no documented bound.
#[verifier::external_body]
fn utc_now_parts() -> (r: TimeParts)
    ensures
        1 <= r.month <= 12,
        1 <= r.day <= 31,
        r.hour <= 23,
        r.minute <= 59,
        r.second <= 59,
{
    let now = chrono::Utc::now();
    TimeParts {
        year: now.year(),
        month: now.month(),
        day: now.day(),
        hour: now.hour(),
        minute: now.minute(),
        second: now.second(),
    }
}

/// Relies on chrono's Local::now with Datelike/Timelike accessors, with the
/// same documented field ranges as `utc_now_parts`.
#[verifier::external_body]
fn local_now_parts() -> (r: TimeParts)
    ensures
        1 <= r.month <= 12,
        1 <= r.day <= 31,
        r.hour <= 23,
        r.minute <= 59,
        r.second <= 59,
{
    let now = chrono::Local::now();
    TimeParts {
        year: now.year(),
        month: now.month(),
        day: now.day(),
        hour: now.hour(),
        minute: now.minute(),
        second: now.second(),
    }
}

pub open spec fn parts_valid(p: TimeParts) -> bool {
    valid_date(p.year as int, p.month as int, p.day as int) && p.hour <= 23 && p.minute <= 59
        && p.second <= 59
}

/// A well-formed timestamp from a wall-clock reading; a reading outside the
/// representable calendar falls back to the epoch date.
pub fn timestamp_of_parts(p: TimeParts) -> (t: Timestamp)
    ensures
        ts_valid(t),
        parts_valid(p) ==> t == (Timestamp {
            year: p.year as u32,
            month: p.month,
            day: p.day,
            hour: p.hour,
            minute: p.minute,
            second: p.second,
        }),
{
    let in_range = 0 <= p.year && p.year <= 9999 && 1 <= p.month && p.month <= 12 && 1 <= p.day
        && p.day <= days_in_month_exec(if p.year >= 0 { p.year as u32 } else { 0 }, p.month)
        && p.hour <= 23 && p.minute <= 59 && p.second <= 59;
    if in_range {
        Timestamp {
            year: p.year as u32,
            month: p.month,
            day: p.day,
            hour: p.hour,
            minute: p.minute,
            second: p.second,
        }
    } else {
        Timestamp { year: 1970, month: 1, day: 1, hour: 0, minute: 0, second: 0 }
    }
}

/// The UTC wall clock now, as a well-formed timestamp.
pub fn utc_now() -> (t: Timestamp)
    ensures
        ts_valid(t),
{
    timestamp_of_parts(utc_now_parts())
}

/// The local wall clock now, as a well-formed timestamp.
pub fn local_now() -> (t: Timestamp)
    ensures
        ts_valid(t),
{
    timestamp_of_parts(local_now_parts())
}

/// Whether a timestamp is well formed; mirrors `ts_valid`.
pub fn ts_valid_check(t: &Timestamp) -> (r: bool)
    ensures
        r == ts_valid(*t),
{
    t.year <= 9999 && 1 <= t.month && t.month <= 12 && 1 <= t.day && t.day <= days_in_month_exec(
        t.year,
        t.month,
    ) && t.hour <= 23 && t.minute <= 59 && t.second <= 59
}

} // verus!
