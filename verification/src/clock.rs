//! Timestamps: the civil calendar from Unix days, and the ISO-8601 text
//! (`YYYY-MM-DDTHH:MM:SS.000Z`) stamped on accounts and statistics.

use vstd::prelude::*;
use crate::text::{push_char, push_padded, zero_padded};

verus! {

/// Gregorian leap year.
pub open spec fn spec_is_leap(y: int) -> bool {
    (y % 4 == 0 && y % 100 != 0) || y % 400 == 0
}

/// Whether `y` is a Gregorian leap year.

pub fn is_leap(y: i64) -> (r: bool)
    ensures
        r == spec_is_leap(y as int),
{
    (y % 4 == 0 && y % 100 != 0) || y % 400 == 0
}

/// Days in year `y`.
pub open spec fn year_len(y: int) -> int {
    if spec_is_leap(y) { 366 } else { 365 }
}

/// Days in month `m` (1 to 12) of year `y`.
pub open spec fn month_len(y: int, m: int) -> int {
    if m == 2 {
        if spec_is_leap(y) { 29 } else { 28 }
    } else if m == 4 || m == 6 || m == 9 || m == 11 {
        30
    } else {
        31
    }
}

/// Days from 1970-01-01 to the first day of year `y` (from 1970 on).
pub open spec fn days_before_year(y: int) -> int
    decreases y - 1970,
{
    if y <= 1970 { 0 } else { days_before_year(y - 1) + year_len(y - 1) }
}

/// Days from the first of the year to the first of month `m`.
pub open spec fn days_before_month(y: int, m: int) -> int
    decreases m,
{
    if m <= 1 { 0 } else { days_before_month(y, m - 1) + month_len(y, m - 1) }
}

/// A calendar date from 1970 on.
pub open spec fn valid_date(y: int, m: int, d: int) -> bool {
    y >= 1970 && 1 <= m <= 12 && 1 <= d <= month_len(y, m)
}

/// Days from 1970-01-01 to the date.
pub open spec fn days_from_civil(y: int, m: int, d: int) -> int {
    days_before_year(y) + days_before_month(y, m) + d - 1
}

proof fn lemma_days_before_year_grows(y: int)
    requires
        y >= 1970,
    ensures
        days_before_year(y) >= 365 * (y - 1970),
    decreases y - 1970,
{
    if y > 1970 {
        lemma_days_before_year_grows(y - 1);
    }
}

proof fn lemma_year_is_months(y: int)
    ensures
        days_before_month(y, 13) == year_len(y),
{
    reveal_with_fuel(days_before_month, 13);
}

proof fn lemma_days_before_month_mono(y: int, a: int, b: int)
    requires
        1 <= a <= b,
    ensures
        days_before_month(y, a) + (b - a) <= days_before_month(y, b),
    decreases b - a,
{
    if a < b {
        lemma_days_before_month_mono(y, a, b - 1);
    }
}

proof fn lemma_days_before_year_mono(a: int, b: int)
    requires
        1970 <= a <= b,
    ensures
        days_before_year(a) + 365 * (b - a) <= days_before_year(b),
    decreases b - a,
{
    if a < b {
        lemma_days_before_year_mono(a, b - 1);
    }
}

proof fn lemma_date_within_year(y: int, m: int, d: int)
    requires
        valid_date(y, m, d),
    ensures
        days_before_month(y, m) + d - 1 < days_before_month(y, m + 1),
        days_before_month(y, m + 1) <= year_len(y),
{
    lemma_days_before_month_mono(y, m + 1, 13);
    lemma_year_is_months(y);
}

/// A day count since 1970-01-01 has exactly one calendar date.
pub proof fn lemma_civil_unique(y1: int, m1: int, d1: int, y2: int, m2: int, d2: int)
    requires
        valid_date(y1, m1, d1),
        valid_date(y2, m2, d2),
        days_from_civil(y1, m1, d1) == days_from_civil(y2, m2, d2),
    ensures
        y1 == y2 && m1 == m2 && d1 == d2,
{
    lemma_date_within_year(y1, m1, d1);
    lemma_date_within_year(y2, m2, d2);
    lemma_days_before_month_mono(y1, 1, m1);
    lemma_days_before_month_mono(y2, 1, m2);
    if y1 < y2 {
        lemma_days_before_year_mono(y1 + 1, y2);
        assert(days_before_year(y1 + 1) == days_before_year(y1) + year_len(y1));
    } else if y2 < y1 {
        lemma_days_before_year_mono(y2 + 1, y1);
        assert(days_before_year(y2 + 1) == days_before_year(y2) + year_len(y2));
    } else {
        if m1 < m2 {
            lemma_days_before_month_mono(y1, m1 + 1, m2);
        } else if m2 < m1 {
            lemma_days_before_month_mono(y1, m2 + 1, m1);
        }
    }
}

/// The calendar date (year, month, day) of a day count since 1970-01-01.
pub open spec fn civil_from_days(days: int) -> (int, int, int) {
    choose|t: (int, int, int)| valid_date(t.0, t.1, t.2) && days_from_civil(t.0, t.1, t.2) == days
}

/// The calendar day after a date.
pub open spec fn next_date(y: int, m: int, d: int) -> (int, int, int) {
    if d < month_len(y, m) {
        (y, m, d + 1)
    } else if m < 12 {
        (y, m + 1, 1)
    } else {
        (y + 1, 1, 1)
    }
}

/// One day count more is the next calendar day: the day after a date is a
/// date whose count is one more, and it is the date of that count.
pub proof fn lemma_next_day(y: int, m: int, d: int)
    requires
        valid_date(y, m, d),
    ensures
        valid_date(next_date(y, m, d).0, next_date(y, m, d).1, next_date(y, m, d).2),
        days_from_civil(next_date(y, m, d).0, next_date(y, m, d).1, next_date(y, m, d).2) == days_from_civil(y, m, d) + 1,
        civil_from_days(days_from_civil(y, m, d) + 1) == next_date(y, m, d),
{
    let n = next_date(y, m, d);
    if d < month_len(y, m) {
    } else if m < 12 {
        assert(days_before_month(y, m + 1) == days_before_month(y, m) + month_len(y, m));
    } else {
        lemma_year_is_months(y);
        assert(days_before_month(y, 13) == days_before_month(y, 12) + month_len(y, 12));
        assert(days_before_year(y + 1) == days_before_year(y) + year_len(y));
        assert(days_before_month(y + 1, 1) == 0);
    }
    let c = days_from_civil(y, m, d) + 1;
    assert(valid_date(n.0, n.1, n.2) && days_from_civil(n.0, n.1, n.2) == c);
    let t = civil_from_days(c);
    assert(valid_date(t.0, t.1, t.2) && days_from_civil(t.0, t.1, t.2) == c);
    lemma_civil_unique(t.0, t.1, t.2, n.0, n.1, n.2);
}

/// The calendar date of a day count since 1970-01-01, as (year, month, day).
/// Counts beyond `i64::MAX` wrap as the signed conversion does.
pub fn days_to_ymd(days: u64) -> (r: (u64, u64, u64))
    ensures
        days <= i64::MAX ==> valid_date(r.0 as int, r.1 as int, r.2 as int)
            && days_from_civil(r.0 as int, r.1 as int, r.2 as int) == days
            && (r.0 as int, r.1 as int, r.2 as int) == civil_from_days(days as int),
        days > i64::MAX ==> r == (1970u64, 1u64, #[verifier::truncate] (((#[verifier::truncate] (days as i64)) + 1) as u64)),
{
    if days > i64::MAX as u64 {
        let w: i64 = #[verifier::truncate] (days as i64);
        assert(w < 0) by (bit_vector)
            requires
                w == #[verifier::truncate] (days as i64),
                days > 0x7fff_ffff_ffff_ffffu64,
        ;
        return (1970, 1, #[verifier::truncate] ((w + 1) as u64));
    }
    let mut d: i64 = days as i64;
    let mut y: i64 = 1970;
    loop
        invariant
            y >= 1970,
            d >= 0,
            d + days_before_year(y as int) == days,
            days <= i64::MAX,
        ensures
            y >= 1970,
            d >= 0,
            d + days_before_year(y as int) == days,
            d < year_len(y as int),
        decreases d,
    {
        let yd: i64 = if is_leap(y) { 366 } else { 365 };
        if d < yd {
            break;
        }
        proof {
            lemma_days_before_year_grows(y as int + 1);
        }
        d = d - yd;
        y = y + 1;
    }
    let feb: i64 = if is_leap(y) { 29 } else { 28 };
    let months: [i64; 12] = [31, feb, 31, 30, 31, 30, 31, 31, 30, 31, 30, 31];
    proof {
        lemma_year_is_months(y as int);
    }
    let mut m: usize = 0;
    while m < 12
        invariant
            0 <= m <= 12,
            d >= 0,
            d + days_before_month(y as int, m as int + 1) + days_before_year(y as int) == days,
            d + days_before_month(y as int, m as int + 1) < year_len(y as int),
            days_before_month(y as int, 13) == year_len(y as int),
            y >= 1970,
            feb == (if spec_is_leap(y as int) { 29int } else { 28int }),
            months@ == seq![31i64, feb, 31, 30, 31, 30, 31, 31, 30, 31, 30, 31],
        ensures
            0 <= m < 12,
            0 <= d < month_len(y as int, m as int + 1),
            d + days_before_month(y as int, m as int + 1) + days_before_year(y as int) == days,
        decreases 12 - m,
    {
        let md = months[m];
        assert(md == month_len(y as int, m as int + 1));
        if d < md {
            break;
        }
        d = d - md;
        m = m + 1;
    }
    let r = (y as u64, (m + 1) as u64, (d + 1) as u64);
    proof {
        let t = (r.0 as int, r.1 as int, r.2 as int);
        assert(valid_date(t.0, t.1, t.2) && days_from_civil(t.0, t.1, t.2) == days);
        let c = civil_from_days(days as int);
        lemma_civil_unique(t.0, t.1, t.2, c.0, c.1, c.2);
    }
    r
}

/// ISO-8601 text of a date and a time of day, with zero milliseconds.
pub open spec fn iso_text(y: nat, mo: nat, d: nat, h: nat, mi: nat, s: nat) -> Seq<char> {
    zero_padded(y, 4) + seq!['-'] + zero_padded(mo, 2) + seq!['-'] + zero_padded(d, 2) + seq!['T']
        + zero_padded(h, 2) + seq![':'] + zero_padded(mi, 2) + seq![':'] + zero_padded(s, 2)
        + seq!['.', '0', '0', '0', 'Z']
}

/// The ISO-8601 text of a Unix time in seconds (for times whose day count
/// fits in `i64`, that is every `u64`).
pub open spec fn iso_of_unix(secs: nat) -> Seq<char> {
    let c = civil_from_days((secs / 86400) as int);
    iso_text(c.0 as nat, c.1 as nat, c.2 as nat, (secs / 3600) % 24, (secs / 60) % 60, secs % 60)
}

/// Formats a Unix time in seconds as `YYYY-MM-DDTHH:MM:SS.000Z` (UTC).
pub fn format_unix_iso(secs: u64) -> (r: String)
    ensures
        r@ == iso_of_unix(secs as nat),
{
    let s = secs % 60;
    let m = (secs / 60) % 60;
    let h = (secs / 3600) % 24;
    let days = secs / 86400;
    let (year, month, day) = days_to_ymd(days);
    let mut out = String::new();
    push_padded(&mut out, year, 4);
    push_char(&mut out, '-');
    push_padded(&mut out, month, 2);
    push_char(&mut out, '-');
    push_padded(&mut out, day, 2);
    push_char(&mut out, 'T');
    push_padded(&mut out, h, 2);
    push_char(&mut out, ':');
    push_padded(&mut out, m, 2);
    push_char(&mut out, ':');
    push_padded(&mut out, s, 2);
    push_char(&mut out, '.');
    push_char(&mut out, '0');
    push_char(&mut out, '0');
    push_char(&mut out, '0');
    push_char(&mut out, 'Z');
    assert(out@ =~= iso_text(year as nat, month as nat, day as nat, h as nat, m as nat, s as nat));
    out
}

/// `SystemTime::now().duration_since(UNIX_EPOCH)` in whole seconds; `None`
/// when the clock is before 1970. The value depends on the clock only.
#[verifier::external_body]
fn unix_now_secs() -> (r: Option<u64>) {
    std::time::SystemTime::now().duration_since(std::time::UNIX_EPOCH).ok().map(|d| d.as_secs())
}

/// The current time as ISO-8601 text (1970-01-01 when the clock is before
/// the epoch).
pub fn chrono_now() -> (r: String)
    ensures
        exists|secs: u64| r@ == #[trigger] iso_of_unix(secs as nat),
{
    let secs = match unix_now_secs() {
        Some(s) => s,
        None => 0,
    };
    format_unix_iso(secs)
}

/// The current time as ISO-8601 text, used to stamp new accounts.
pub fn chrono_now_pub() -> (r: String)
    ensures
        exists|secs: u64| r@ == #[trigger] iso_of_unix(secs as nat),
{
    chrono_now()
}

} // verus!
