//! Calendar dates from day counts, for file names and the PGN Date tag.

use vstd::prelude::*;
use vstd::arithmetic::div_mod::lemma_fundamental_div_mod_converse;
use crate::text::{decimal, push_decimal, push_str, string_of};

verus! {

/// A leap year of the proleptic Gregorian calendar.
pub open spec fn is_leap(y: int) -> bool {
    (y % 4 == 0 && y % 100 != 0) || y % 400 == 0
}

/// The days of month `m` (1 to 12) of year `y`.
pub open spec fn month_days(y: int, m: int) -> int {
    if m == 2 {
        if is_leap(y) { 29 } else { 28 }
    } else if m == 4 || m == 6 || m == 9 || m == 11 {
        30
    } else {
        31
    }
}

/// The days of year `y` before the first of month `m`.
pub open spec fn days_before_month(y: int, m: int) -> int {
    let leap: int = if is_leap(y) { 1 } else { 0 };
    if m <= 1 { 0 }
    else if m == 2 { 31 }
    else if m == 3 { 59 + leap }
    else if m == 4 { 90 + leap }
    else if m == 5 { 120 + leap }
    else if m == 6 { 151 + leap }
    else if m == 7 { 181 + leap }
    else if m == 8 { 212 + leap }
    else if m == 9 { 243 + leap }
    else if m == 10 { 273 + leap }
    else if m == 11 { 304 + leap }
    else { 334 + leap }
}

/// The leap years from year 1 through `y`; differences of it count the leap
/// years between any two years.
pub open spec fn leaps_through(y: int) -> int {
    y / 4 - y / 100 + y / 400
}

/// A real date: a month from 1 to 12 and a day within it.
pub open spec fn valid_date(y: int, m: int, d: int) -> bool {
    1 <= m <= 12 && 1 <= d <= month_days(y, m)
}

/// The days from 1970-01-01 to the date `y`-`m`-`d`, negative before it.
pub open spec fn days_from_civil(y: int, m: int, d: int) -> int {
    365 * (y - 1970) + (leaps_through(y - 1) - leaps_through(1969)) + days_before_month(y, m) + d - 1
}

/// Within a 400-year era counted from the first of March, the year and the
/// day of that year of the era's `doe`-th day.
proof fn lemma_year_of_era(doe: u32)
    requires
        doe < 146097,
    ensures
        ({
            let yoe = (doe - doe / 1460 + doe / 36524 - doe / 146096) / 365;
            let doy = doe - (365 * yoe + yoe / 4 - yoe / 100);
            &&& yoe <= 399
            &&& 0 <= doy <= 365
            &&& (doy == 365 ==> ((yoe + 1) % 4 == 0 && ((yoe + 1) % 100 != 0 || (yoe + 1) % 400 == 0)))
        }),
{
    assert({
        let yoe = (doe - doe / 1460 + doe / 36524 - doe / 146096) / 365;
        let doy = doe - (365 * yoe + yoe / 4 - yoe / 100);
        &&& yoe <= 399
        &&& 0 <= doy <= 365
        &&& (doy == 365 ==> ((yoe + 1) % 4 == 0 && ((yoe + 1) % 100 != 0 || (yoe + 1) % 400 == 0)))
    }) by (bit_vector)
        requires
            doe < 146097,
    ;
}

/// In a year counted from the first of March, the month (0 for March) and
/// the day of the year's `doy`-th day.
proof fn lemma_month_of_year(doy: u32)
    requires
        doy <= 365,
    ensures
        ({
            let mp = (5 * doy + 2) / 153;
            let d = doy - (153 * mp + 2) / 5 + 1;
            &&& mp <= 11
            &&& 1 <= d
            &&& (mp == 11 ==> d <= 28 || (doy == 365 && d == 29))
            &&& (mp == 1 || mp == 3 || mp == 6 || mp == 8 ==> d <= 30)
            &&& d <= 31
        }),
{
    assert({
        let mp = (5 * doy + 2) / 153;
        let d = doy - (153 * mp + 2) / 5 + 1;
        &&& mp <= 11
        &&& 1 <= d
        &&& (mp == 11 ==> d <= 28 || (doy == 365 && d == 29))
        &&& (mp == 1 || mp == 3 || mp == 6 || mp == 8 ==> d <= 30)
        &&& d <= 31
    }) by (bit_vector)
        requires
            doy <= 365,
    ;
}

/// The days before March-based month `mp` of a March-based year.
proof fn lemma_march_months(mp: int)
    requires
        0 <= mp <= 11,
    ensures
        mp == 0 ==> (153 * mp + 2) / 5 == 0,
        mp == 1 ==> (153 * mp + 2) / 5 == 31,
        mp == 2 ==> (153 * mp + 2) / 5 == 61,
        mp == 3 ==> (153 * mp + 2) / 5 == 92,
        mp == 4 ==> (153 * mp + 2) / 5 == 122,
        mp == 5 ==> (153 * mp + 2) / 5 == 153,
        mp == 6 ==> (153 * mp + 2) / 5 == 184,
        mp == 7 ==> (153 * mp + 2) / 5 == 214,
        mp == 8 ==> (153 * mp + 2) / 5 == 245,
        mp == 9 ==> (153 * mp + 2) / 5 == 275,
        mp == 10 ==> (153 * mp + 2) / 5 == 306,
        mp == 11 ==> (153 * mp + 2) / 5 == 337,
{
}

/// Years of an era keep their place among the leap years: the divisions
/// by 4, 100 and 400 of `era * 400 + k` split into the era's and `k`'s.
proof fn lemma_era_year(era: int, k: int)
    requires
        0 <= k <= 400,
    ensures
        (era * 400 + k) / 4 == era * 100 + k / 4,
        (era * 400 + k) % 4 == k % 4,
        (era * 400 + k) / 100 == era * 4 + k / 100,
        (era * 400 + k) % 100 == k % 100,
        (era * 400 + k) / 400 == era + k / 400,
        (era * 400 + k) % 400 == k % 400,
{
    lemma_fundamental_div_mod_converse(era * 400 + k, 4, era * 100 + k / 4, k % 4);
    lemma_fundamental_div_mod_converse(era * 400 + k, 100, era * 4 + k / 100, k % 100);
    lemma_fundamental_div_mod_converse(era * 400 + k, 400, era + k / 400, k % 400);
}

/// The March-based count of an era: `doe` days into era `era` is the day
/// `doy` of year `yoe` of the era, and the month and day follow from `doy`.
proof fn lemma_civil(days: int, era: int, doe: int, yoe: int, doy: int, mp: int, day: int, month: int, year: int)
    requires
        days + 719468 == era * 146097 + doe,
        0 <= yoe <= 399,
        0 <= doy <= 365,
        doe == 365 * yoe + yoe / 4 - yoe / 100 + doy,
        doy == 365 ==> ((yoe + 1) % 4 == 0 && ((yoe + 1) % 100 != 0 || (yoe + 1) % 400 == 0)),
        0 <= mp <= 11,
        day == doy - (153 * mp + 2) / 5 + 1,
        1 <= day <= 31,
        mp == 11 ==> day <= 28 || (doy == 365 && day == 29),
        mp == 1 || mp == 3 || mp == 6 || mp == 8 ==> day <= 30,
        month == (if mp < 10 { mp + 3 } else { mp - 9 }),
        year == yoe + era * 400 + (if month <= 2 { 1int } else { 0 }),
    ensures
        valid_date(year, month, day),
        days_from_civil(year, month, day) == days,
{
    let y0 = era * 400 + yoe;
    lemma_era_year(era, yoe);
    lemma_era_year(era, yoe + 1);
    lemma_march_months(mp);
    assert(leaps_through(y0) == era * 97 + yoe / 4 - yoe / 100);
    assert(leaps_through(1969) == 477);
    assert(is_leap(y0 + 1) == ((yoe + 1) % 4 == 0 && ((yoe + 1) % 100 != 0 || (yoe + 1) % 400 == 0)));
    if month <= 2 {
        assert(year == y0 + 1);
        assert(days_before_month(year, month) == (153 * mp + 2) / 5 - 306);
        assert(days_from_civil(year, month, day) == 365 * (y0 - 1970) + leaps_through(y0) - 477 + 59 + doy);
    } else {
        assert(year == y0);
        if yoe > 0 {
            lemma_era_year(era, yoe - 1);
        } else {
            lemma_era_year(era - 1, 399);
        }
        assert(leaps_through(y0) - leaps_through(y0 - 1) == if is_leap(y0) { 1int } else { 0 });
        assert(days_before_month(year, month) == 59 + (if is_leap(y0) { 1int } else { 0 }) + (153 * mp + 2) / 5);
        assert(days_from_civil(year, month, day) == 365 * (y0 - 1970) + leaps_through(y0) - 477 + 59 + doy);
    }
}

/// The date `days` days after 1970-01-01 (before it, when negative), as
/// year, month and day; by Howard Hinnant's days-to-civil.
pub fn civil_from_days(days: i64) -> (r: (i64, u32, u32))
    requires
        days <= i64::MAX - 719468,
    ensures
        valid_date(r.0 as int, r.1 as int, r.2 as int),
        days_from_civil(r.0 as int, r.1 as int, r.2 as int) == days,
{
    let z: i64 = days + 719468;
    let era: i64 = match z.checked_div_euclid(146097) {
        Some(q) => q,
        None => 0,
    };
    let doe: i64 = match z.checked_rem_euclid(146097) {
        Some(r) => r,
        None => 0,
    };
    proof {
        lemma_fundamental_div_mod_converse(z as int, 146097, era as int, doe as int);
        lemma_year_of_era(doe as u32);
    }
    let yoe: i64 = (doe - doe / 1460 + doe / 36524 - doe / 146096) / 365;
    let doy: i64 = doe - (365 * yoe + yoe / 4 - yoe / 100);
    proof {
        lemma_month_of_year(doy as u32);
    }
    let mp: i64 = (5 * doy + 2) / 153;
    let day: u32 = (doy - (153 * mp + 2) / 5 + 1) as u32;
    let month: u32 = if mp < 10 { (mp + 3) as u32 } else { (mp - 9) as u32 };
    let year: i64 = yoe + era * 400 + if month <= 2 { 1 } else { 0 };
    proof {
        lemma_civil(days as int, era as int, doe as int, yoe as int, doy as int, mp as int, day as int, month as int, year as int);
    }
    (year, month, day)
}

/// A moment in UTC as year, month, day, hour, minute and second.
pub struct Moment {
    pub year: int,
    pub month: int,
    pub day: int,
    pub hour: int,
    pub minute: int,
    pub second: int,
}

/// The moment `secs` seconds after the Unix epoch, in UTC.
pub open spec fn moment_of(secs: nat) -> Moment {
    let days = (secs / 86400) as int;
    let rest = (secs % 86400) as int;
    let (y, m, d) = civil_of(days);
    Moment { year: y, month: m, day: d, hour: rest / 3600, minute: rest % 3600 / 60, second: rest % 60 }
}

/// The date `days` days after 1970-01-01: the one date it counts to.
pub open spec fn civil_of(days: int) -> (int, int, int) {
    choose|y: int, m: int, d: int| valid_date(y, m, d) && days_from_civil(y, m, d) == days
}

/// The day count of the first of January of `y`.
pub open spec fn year_start(y: int) -> int {
    days_from_civil(y, 1, 1)
}

pub open spec fn year_length(y: int) -> int {
    if is_leap(y) { 366 } else { 365 }
}

/// A date falls within its year.
proof fn lemma_within_year(y: int, m: int, d: int)
    requires
        valid_date(y, m, d),
    ensures
        year_start(y) <= days_from_civil(y, m, d) < year_start(y) + year_length(y),
{
}

/// A year is one leap year more than the one before it exactly when it is
/// a leap year.
proof fn lemma_leap_step(y: int)
    ensures
        leaps_through(y) - leaps_through(y - 1) == (if is_leap(y) { 1int } else { 0 }),
{
    let (q4, r4) = (y / 4, y % 4);
    let (q100, r100) = (y / 100, y % 100);
    let (q400, r400) = (y / 400, y % 400);
    vstd::arithmetic::div_mod::lemma_fundamental_div_mod(y, 4);
    vstd::arithmetic::div_mod::lemma_fundamental_div_mod(y, 100);
    vstd::arithmetic::div_mod::lemma_fundamental_div_mod(y, 400);
    if r4 > 0 {
        lemma_fundamental_div_mod_converse(y - 1, 4, q4, r4 - 1);
    } else {
        lemma_fundamental_div_mod_converse(y - 1, 4, q4 - 1, 3);
    }
    if r100 > 0 {
        lemma_fundamental_div_mod_converse(y - 1, 100, q100, r100 - 1);
    } else {
        lemma_fundamental_div_mod_converse(y - 1, 100, q100 - 1, 99);
    }
    if r400 > 0 {
        lemma_fundamental_div_mod_converse(y - 1, 400, q400, r400 - 1);
    } else {
        lemma_fundamental_div_mod_converse(y - 1, 400, q400 - 1, 399);
    }
    if r400 == 0 {
        lemma_fundamental_div_mod_converse(y, 100, q400 * 4, 0);
        lemma_fundamental_div_mod_converse(y, 4, q400 * 100, 0);
    } else if r100 == 0 {
        lemma_fundamental_div_mod_converse(y, 4, q100 * 25, 0);
    }
}

/// Each year starts where the one before it ends.
proof fn lemma_next_year(y: int)
    ensures
        year_start(y + 1) == year_start(y) + year_length(y),
{
    lemma_leap_step(y);
}

/// Later years start no earlier than an earlier year ends.
proof fn lemma_years_in_order(y1: int, y2: int)
    requires
        y1 < y2,
    ensures
        year_start(y1) + year_length(y1) <= year_start(y2),
    decreases y2 - y1,
{
    lemma_next_year(y1);
    if y1 + 1 < y2 {
        lemma_years_in_order(y1 + 1, y2);
        lemma_next_year(y1 + 1);
    }
}

/// Different dates are different days.
pub proof fn lemma_days_from_civil_unique(y1: int, m1: int, d1: int, y2: int, m2: int, d2: int)
    requires
        valid_date(y1, m1, d1),
        valid_date(y2, m2, d2),
        days_from_civil(y1, m1, d1) == days_from_civil(y2, m2, d2),
    ensures
        y1 == y2 && m1 == m2 && d1 == d2,
{
    lemma_within_year(y1, m1, d1);
    lemma_within_year(y2, m2, d2);
    if y1 < y2 {
        lemma_years_in_order(y1, y2);
    } else if y2 < y1 {
        lemma_years_in_order(y2, y1);
    }
}

/// The calendar day after `y`-`m`-`d`.
pub open spec fn next_day(y: int, m: int, d: int) -> (int, int, int) {
    if d < month_days(y, m) {
        (y, m, d + 1)
    } else if m < 12 {
        (y, m + 1, 1)
    } else {
        (y + 1, 1, 1)
    }
}

/// The day after a date is a date, one day later; and the date one day
/// after another is the calendar day after it. So `civil_from_days(n + 1)`
/// is the day after `civil_from_days(n)`.
pub proof fn law_next_day(y: int, m: int, d: int, y2: int, m2: int, d2: int)
    requires
        valid_date(y, m, d),
    ensures
        ({
            let (ny, nm, nd) = next_day(y, m, d);
            valid_date(ny, nm, nd) && days_from_civil(ny, nm, nd) == days_from_civil(y, m, d) + 1
        }),
        valid_date(y2, m2, d2) && days_from_civil(y2, m2, d2) == days_from_civil(y, m, d) + 1
            ==> (y2, m2, d2) == next_day(y, m, d),
{
    let (ny, nm, nd) = next_day(y, m, d);
    if d >= month_days(y, m) && m == 12 {
        lemma_next_year(y);
    }
    assert(valid_date(ny, nm, nd) && days_from_civil(ny, nm, nd) == days_from_civil(y, m, d) + 1);
    if valid_date(y2, m2, d2) && days_from_civil(y2, m2, d2) == days_from_civil(y, m, d) + 1 {
        lemma_days_from_civil_unique(y2, m2, d2, ny, nm, nd);
    }
}

/// `n` in decimal, padded with zeros on the left to `width` characters.
pub open spec fn padded(n: nat, width: nat) -> Seq<char> {
    let digits = decimal(n);
    let zeros: nat = if digits.len() < width { (width - digits.len()) as nat } else { 0 };
    Seq::new(zeros, |i: int| '0') + digits
}

/// Appends `n` padded with zeros to `width` characters.
fn push_padded(out: &mut Vec<char>, n: u64, width: usize)
    ensures
        final(out)@ == old(out)@ + padded(n as nat, width as nat),
{
    let mut digits: Vec<char> = Vec::new();
    push_decimal(&mut digits, n);
    proof {
        assert(digits@ =~= decimal(n as nat));
    }
    let zeros: usize = if digits.len() < width { width - digits.len() } else { 0 };
    let ghost start = out@;
    let mut i: usize = 0;
    while i < zeros
        invariant
            i <= zeros,
            out@ == start + Seq::new(i as nat, |k: int| '0'),
        decreases zeros - i,
    {
        out.push('0');
        i = i + 1;
        proof {
            assert(out@ =~= start + Seq::new(i as nat, |k: int| '0'));
        }
    }
    let ghost mid = out@;
    let mut j: usize = 0;
    while j < digits.len()
        invariant
            j <= digits@.len(),
            out@ == mid + digits@.take(j as int),
        decreases digits.len() - j,
    {
        out.push(digits[j]);
        j = j + 1;
        proof {
            assert(out@ =~= mid + digits@.take(j as int));
        }
    }
    proof {
        assert(digits@.take(digits@.len() as int) =~= digits@);
        assert(out@ =~= start + padded(n as nat, width as nat));
    }
}

/// Dates from the epoch on fall in 1970 or later.
proof fn lemma_epoch_year(y: int, m: int, d: int)
    requires
        valid_date(y, m, d),
        days_from_civil(y, m, d) >= 0,
    ensures
        y >= 1970,
{
    lemma_within_year(y, m, d);
    if y < 1970 {
        lemma_years_in_order(y, 1970);
    }
}

/// Year, month, day, hour, minute and second, in UTC, of the moment `secs`
/// seconds after the Unix epoch.
pub fn utc_parts(secs: u64) -> (r: (i64, u32, u32, u32, u32, u32))
    ensures
        ({
            let t = moment_of(secs as nat);
            &&& r.0 == t.year
            &&& r.1 == t.month
            &&& r.2 == t.day
            &&& r.3 == t.hour
            &&& r.4 == t.minute
            &&& r.5 == t.second
        }),
        r.0 >= 1970,
        1 <= r.1 <= 12,
        1 <= r.2 <= 31,
        r.3 < 24 && r.4 < 60 && r.5 < 60,
{
    let days: i64 = (secs / 86400) as i64;
    let (year, month, day) = civil_from_days(days);
    let day_secs: u32 = (secs % 86400) as u32;
    proof {
        let c = civil_of(days as int);
        assert(valid_date(c.0, c.1, c.2) && days_from_civil(c.0, c.1, c.2) == days);
        lemma_days_from_civil_unique(year as int, month as int, day as int, c.0, c.1, c.2);
        lemma_epoch_year(year as int, month as int, day as int);
    }
    (year, month, day, day_secs / 3600, day_secs % 3600 / 60, day_secs % 60)
}

/// A date as the PGN Date tag writes it: `YYYY.MM.DD`.
pub open spec fn date_tag(t: Moment) -> Seq<char> {
    padded(t.year as nat, 4) + seq!['.'] + padded(t.month as nat, 2) + seq!['.'] + padded(t.day as nat, 2)
}

/// The file name a game saved at a moment gets: `YYYY-MM-DD_HHMMSS.pgn`,
/// so that the names sort by time.
pub open spec fn game_file_text(t: Moment) -> Seq<char> {
    padded(t.year as nat, 4) + seq!['-'] + padded(t.month as nat, 2) + seq!['-'] + padded(t.day as nat, 2)
        + seq!['_'] + padded(t.hour as nat, 2) + padded(t.minute as nat, 2) + padded(t.second as nat, 2)
        + ".pgn"@
}

/// The day of the moment `secs` seconds after the epoch as the PGN Date
/// tag, `YYYY.MM.DD`, in UTC.
pub fn today(secs: u64) -> (s: String)
    ensures
        s@ == date_tag(moment_of(secs as nat)),
{
    let (year, month, day, _, _, _) = utc_parts(secs);
    let mut out: Vec<char> = Vec::new();
    push_padded(&mut out, year as u64, 4);
    out.push('.');
    push_padded(&mut out, month as u64, 2);
    out.push('.');
    push_padded(&mut out, day as u64, 2);
    string_of(out.as_slice())
}

/// The name of the file a game saved `secs` seconds after the epoch goes
/// to: `YYYY-MM-DD_HHMMSS.pgn`, in UTC.
pub fn game_file_name(secs: u64) -> (s: String)
    ensures
        s@ == game_file_text(moment_of(secs as nat)),
{
    let (year, month, day, hour, minute, second) = utc_parts(secs);
    let mut out: Vec<char> = Vec::new();
    push_padded(&mut out, year as u64, 4);
    out.push('-');
    push_padded(&mut out, month as u64, 2);
    out.push('-');
    push_padded(&mut out, day as u64, 2);
    out.push('_');
    push_padded(&mut out, hour as u64, 2);
    push_padded(&mut out, minute as u64, 2);
    push_padded(&mut out, second as u64, 2);
    push_str(&mut out, ".pgn");
    string_of(out.as_slice())
}

} // verus!
