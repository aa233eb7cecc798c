//! A point in time as an ISO 8601 text, by the civil calendar.
use vstd::prelude::*;
use vstd::string::*;

use crate::text::{dec, push_dec};

verus! {

/// A leap year of the Gregorian calendar.
pub open spec fn is_leap(y: nat) -> bool {
    y % 4 == 0 && (y % 100 != 0 || y % 400 == 0)
}

/// The days of the years before `y`, from year 0.
pub open spec fn days_before_year(y: nat) -> nat
    decreases y,
{
    if y == 0 {
        0
    } else {
        days_before_year((y - 1) as nat) + if is_leap((y - 1) as nat) { 366nat } else { 365nat }
    }
}

/// The days of a month.
pub open spec fn days_in_month(y: nat, m: nat) -> nat {
    if m == 2 {
        if is_leap(y) { 29 } else { 28 }
    } else if m == 4 || m == 6 || m == 9 || m == 11 {
        30
    } else {
        31
    }
}

/// The days of the months of year `y` before month `m`.
pub open spec fn days_before_month(y: nat, m: nat) -> nat
    decreases m,
{
    if m <= 1 {
        0
    } else {
        days_before_month(y, (m - 1) as nat) + days_in_month(y, (m - 1) as nat)
    }
}

/// A date of the calendar.
pub open spec fn is_date(y: nat, m: nat, d: nat) -> bool {
    1 <= m <= 12 && 1 <= d <= days_in_month(y, m)
}

/// The days from the first day of year 0 to a date.
pub open spec fn day_number(y: nat, m: nat, d: nat) -> int {
    days_before_year(y) + days_before_month(y, m) + d - 1
}

/// `n` in decimal with at least `w` digits.
pub open spec fn padded(n: nat, w: nat) -> Seq<char>
    decreases w,
{
    if w <= 1 {
        dec(n)
    } else if n < 10 {
        Seq::new((w - 1) as nat, |i: int| '0') + dec(n)
    } else {
        padded(n / 10, (w - 1) as nat) + dec(n % 10)
    }
}

/// The text of a date and a time of day.
pub open spec fn date_text(y: nat, m: nat, d: nat, secs: nat) -> Seq<char> {
    padded(y, 4) + "-"@ + padded(m, 2) + "-"@ + padded(d, 2) + "T"@ + padded(secs / 3600, 2) + ":"@
        + padded(secs % 3600 / 60, 2) + ":"@ + padded(secs % 60, 2) + "Z"@
}

/// Appends `n` with at least `w` digits.
fn push_padded(out: &mut String, n: u64, w: u32)
    ensures
        final(out)@ == old(out)@ + padded(n as nat, w as nat),
    decreases w,
{
    let ghost before = out@;
    if w <= 1 {
        push_dec(out, n);
    } else if n < 10 {
        let mut i: u32 = 1;
        while i < w
            invariant
                1 <= i <= w,
                out@ == before + Seq::new((i - 1) as nat, |j: int| '0'),
            decreases w - i,
        {
            out.push('0');
            assert(out@ =~= before + Seq::new(i as nat, |j: int| '0'));
            i = i + 1;
        }
        push_dec(out, n);
        assert(out@ =~= before + padded(n as nat, w as nat));
    } else {
        push_padded(out, n / 10, w - 1);
        push_dec(out, n % 10);
        assert(out@ =~= before + padded(n as nat, w as nat));
    }
}

// ---------- from days to a date ----------

/// The leap years before `y`.
pub open spec fn leaps_before(y: int) -> int {
    (y + 3) / 4 - (y + 99) / 100 + (y + 399) / 400
}

#[verifier::rlimit(40)]
pub(crate) proof fn lemma_days_before_year(y: nat)
    ensures
        days_before_year(y) == 365 * y + leaps_before(y as int),
    decreases y,
{
    if y > 0 {
        lemma_days_before_year((y - 1) as nat);
    }
}

/// The days before month `m`, in a year that is a leap year or not.
pub open spec fn month_start(m: nat, leap: bool) -> nat {
    let extra: nat = if leap { 1 } else { 0 };
    if m <= 1 {
        0
    } else if m == 2 {
        31
    } else if m == 3 {
        59 + extra
    } else if m == 4 {
        90 + extra
    } else if m == 5 {
        120 + extra
    } else if m == 6 {
        151 + extra
    } else if m == 7 {
        181 + extra
    } else if m == 8 {
        212 + extra
    } else if m == 9 {
        243 + extra
    } else if m == 10 {
        273 + extra
    } else if m == 11 {
        304 + extra
    } else {
        334 + extra
    }
}

pub(crate) proof fn lemma_days_before_month(y: nat, m: nat)
    requires
        1 <= m <= 12,
    ensures
        days_before_month(y, m) == month_start(m, is_leap(y)),
    decreases m,
{
    if m > 1 {
        lemma_days_before_month(y, (m - 1) as nat);
    }
}

/// A year from its place in its four centuries, its century, its four years.
proof fn lemma_year_parts(q: int, c: int, k: int, s: int)
    requires
        0 <= q,
        0 <= c <= 3,
        0 <= k <= 24,
        0 <= s <= 3,
    ensures
        ({
            let y = q * 400 + c * 100 + k * 4 + s;
            &&& y / 4 == q * 100 + c * 25 + k
            &&& y / 100 == q * 4 + c
            &&& y / 400 == q
        }),
{
}

/// The year that follows the last of four years is a leap year, unless it opens
/// a century that does not open four.
proof fn lemma_next_is_leap(q: int, c: int, k: int)
    requires
        0 <= q,
        0 <= c <= 3,
        0 <= k <= 24,
        k < 24 || c == 3,
    ensures
        is_leap((q * 400 + c * 100 + k * 4 + 4) as nat),
{
    let n = q * 400 + c * 100 + k * 4 + 4;
    assert(n % 4 == 0);
    if k < 24 {
        assert(n == 100 * (q * 4 + c) + (k * 4 + 4));
        assert(n % 100 == k * 4 + 4);
    } else {
        assert(n == 400 * (q + 1));
    }
}

/// The year from March, the day in it, of day `z` counted from the first of
/// March of year 0.
fn march_year(z: u64) -> (r: (u64, u64))
    requires
        z <= 0x2_0000_0000_0000,
    ensures
        ({
            let (y, doy) = r;
            &&& y <= z
            &&& z == 365 * y + y / 4 - y / 100 + y / 400 + doy
            &&& doy < 365 || (doy == 365 && is_leap((y + 1) as nat))
        }),
{
    let q: u64 = z / 146097;
    let r1: u64 = z % 146097;
    let c: u64 = if r1 / 36524 < 3 { r1 / 36524 } else { 3 };
    assert(c * 36524 <= r1 && (r1 - c * 36524 < 36524 || (c == 3 && r1 - c * 36524 == 36524)));
    let r2: u64 = r1 - c * 36524;
    let k: u64 = r2 / 1461;
    let r3: u64 = r2 % 1461;
    assert(k <= 24 && (k == 24 && r3 == 1460 ==> c == 3));
    let s: u64 = if r3 / 365 < 3 { r3 / 365 } else { 3 };
    assert(s * 365 <= r3 && (r3 - s * 365 < 365 || (s == 3 && r3 == 1460)));
    let doy: u64 = r3 - s * 365;
    proof {
        lemma_year_parts(q as int, c as int, k as int, s as int);
        if doy == 365 {
            lemma_next_is_leap(q as int, c as int, k as int);
        }
    }
    let y: u64 = q * 400 + c * 100 + k * 4 + s;
    (y, doy)
}

/// The month and the day of day `doy` of a year from March.
fn march_month(doy: u64) -> (r: (u64, u64))
    requires
        doy <= 365,
    ensures
        ({
            let (m, d) = r;
            &&& 1 <= m <= 12
            &&& d >= 1
            &&& m >= 3 ==> month_start(m as nat, false) + d - 1 == doy + 59
            &&& m <= 2 ==> month_start(m as nat, false) + d - 1 == doy - 306
            &&& m == 2 ==> d <= doy - 336
            &&& m != 2 ==> d <= days_in_month(1, m as nat)
        }),
{
    let mp: u64 = (5 * doy + 2) / 153;
    let first: u64 = (153 * mp + 2) / 5;
    assert(mp <= 11);
    assert(mp == 0 || mp == 1 || mp == 2 || mp == 3 || mp == 4 || mp == 5 || mp == 6 || mp == 7 || mp == 8
        || mp == 9 || mp == 10 || mp == 11);
    assert(first <= doy);
    let d: u64 = doy - first + 1;
    let m: u64 = if mp < 10 { mp + 3 } else { mp - 9 };
    (m, d)
}

/// The date of day `days` counted from the first of January 1970.
#[verifier::rlimit(40)]
fn civil(days: u64) -> (r: (u64, u64, u64))
    requires
        days <= 0xFFFF_FFFF_FFFF,
    ensures
        is_date(r.0 as nat, r.1 as nat, r.2 as nat),
        day_number(r.0 as nat, r.1 as nat, r.2 as nat) == days + 719528,
{
    let z: u64 = days + 719468;
    let (march, doy) = march_year(z);
    let (m, d) = march_month(doy);
    let y: u64 = if m <= 2 { march + 1 } else { march };
    proof {
        lemma_days_before_year(y as nat);
        lemma_days_before_month(y as nat, m as nat);
        if m <= 2 {
            assert(leaps_before(march + 1) == 1 + march / 4 - march / 100 + march / 400);
        } else {
            assert(leaps_before(march as int) + (if is_leap(march as nat) { 1int } else { 0int }) == 1 + march / 4
                - march / 100 + march / 400);
        }
    }
    (y, m, d)
}

/// The number of the first of January 1970.
pub proof fn lemma_epoch()
    ensures
        is_date(1970, 1, 1),
        day_number(1970, 1, 1) == 719528,
{
    lemma_days_before_year(1970);
}

/// The date is that of a moment `secs` seconds after the start of 1970, and
/// `text` its text.
pub open spec fn is_moment(text: Seq<char>, secs: nat, y: nat, m: nat, d: nat) -> bool {
    &&& is_date(y, m, d)
    &&& day_number(y, m, d) == day_number(1970, 1, 1) + secs as int / 86400
    &&& text == date_text(y, m, d, secs % 86400)
}

/// `secs` seconds after the start of 1970, as an ISO 8601 text in UTC.
pub fn iso8601_utc(secs: u64) -> (r: String)
    ensures
        exists|y: nat, m: nat, d: nat| #[trigger] is_moment(r@, secs as nat, y, m, d),
{
    let (days, rem) = (secs / 86400, secs % 86400);
    let (y, m, d) = civil(days);
    proof {
        lemma_epoch();
    }
    let mut out = String::new();
    push_padded(&mut out, y, 4);
    assert(out@ =~= padded(y as nat, 4));
    out.append("-");
    push_padded(&mut out, m, 2);
    out.append("-");
    push_padded(&mut out, d, 2);
    out.append("T");
    push_padded(&mut out, rem / 3600, 2);
    out.append(":");
    push_padded(&mut out, rem % 3600 / 60, 2);
    out.append(":");
    push_padded(&mut out, rem % 60, 2);
    out.append("Z");
    assert(is_moment(out@, secs as nat, y as nat, m as nat, d as nat));
    out
}

/// No two dates have one number, so the text of a moment is the only one.
pub proof fn lemma_date_unique(y1: nat, m1: nat, d1: nat, y2: nat, m2: nat, d2: nat)
    requires
        is_date(y1, m1, d1),
        is_date(y2, m2, d2),
        day_number(y1, m1, d1) == day_number(y2, m2, d2),
    ensures
        y1 == y2 && m1 == m2 && d1 == d2,
{
    lemma_days_before_month(y1, m1);
    lemma_days_before_month(y2, m2);
    if y1 < y2 {
        lemma_year_order(y1, y2);
    } else if y2 < y1 {
        lemma_year_order(y2, y1);
    }
}

pub(crate) proof fn lemma_year_order(y1: nat, y2: nat)
    requires
        y1 < y2,
    ensures
        days_before_year(y1) + (if is_leap(y1) { 366int } else { 365int }) <= days_before_year(y2),
    decreases y2,
{
    if y1 + 1 < y2 {
        lemma_year_order(y1, (y2 - 1) as nat);
    }
}

} // verus!
