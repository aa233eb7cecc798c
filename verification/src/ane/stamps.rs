//! The order of time stamps: later moments have later texts.
use vstd::prelude::*;
use vstd::string::*;

use crate::ane::clock::{
    date_text, day_number, is_date, is_moment, lemma_date_unique, lemma_days_before_month,
    lemma_days_before_year, lemma_epoch, lemma_year_order, padded,
};
use crate::text::{dec, digit_char, is_digit};

verus! {

/// The first second of the year 10000, whose texts are longer.
pub const FIVE_DIGIT_YEARS: u64 = 253402300800;

/// `a` stands before `b` in dictionary order, at the first place where they
/// differ.
pub open spec fn stands_before(a: Seq<char>, b: Seq<char>) -> bool {
    exists|k: int|
        0 <= k < a.len() && k < b.len() && #[trigger] a[k] < b[k] && forall|j: int| 0 <= j < k ==> a[j] == b[j]
}

/// A text of the form `YYYY-MM-DDThh:mm:ssZ`.
pub open spec fn is_stamp(t: Seq<char>) -> bool {
    &&& t.len() == 20
    &&& t[4] == '-' && t[7] == '-' && t[10] == 'T' && t[13] == ':' && t[16] == ':' && t[19] == 'Z'
    &&& forall|i: int|
        0 <= i < 20 && i != 4 && i != 7 && i != 10 && i != 13 && i != 16 && i != 19 ==> is_digit(#[trigger] t[i])
}

#[verifier::opaque]
spec fn stamp(y: nat, m: nat, d: nat, h: nat, i: nat, s: nat) -> Seq<char> {
    seq![
        digit_char(y / 1000),
        digit_char(y / 100 % 10),
        digit_char(y / 10 % 10),
        digit_char(y % 10),
        '-',
        digit_char(m / 10),
        digit_char(m % 10),
        '-',
        digit_char(d / 10),
        digit_char(d % 10),
        'T',
        digit_char(h / 10),
        digit_char(h % 10),
        ':',
        digit_char(i / 10),
        digit_char(i % 10),
        ':',
        digit_char(s / 10),
        digit_char(s % 10),
        'Z',
    ]
}

proof fn lemma_padded_two(n: nat)
    requires
        n < 100,
    ensures
        padded(n, 2) == seq![digit_char(n / 10), digit_char(n % 10)],
{
    reveal_with_fuel(padded, 2);
    assert(n < 10 ==> n / 10 == 0 && n % 10 == n);
    assert(padded(n, 2) =~= seq![digit_char(n / 10), digit_char(n % 10)]);
}

proof fn lemma_padded_four(n: nat)
    requires
        1000 <= n < 10000,
    ensures
        padded(n, 4) == seq![
            digit_char(n / 1000),
            digit_char(n / 100 % 10),
            digit_char(n / 10 % 10),
            digit_char(n % 10),
        ],
{
    let (a, b, c) = (n / 10, n / 100, n / 1000);
    assert(a / 10 == b && b / 10 == c && 1 <= c < 10 && b >= 10 && a >= 100);
    assert(padded(c, 1) == dec(c));
    assert(padded(b, 2) == dec(c) + dec(b % 10));
    assert(padded(a, 3) == padded(b, 2) + dec(a % 10));
    assert(padded(n, 4) == padded(a, 3) + dec(n % 10));
    assert(padded(n, 4) =~= seq![digit_char(c), digit_char(b % 10), digit_char(a % 10), digit_char(n % 10)]);
}

proof fn lemma_stamp(y: nat, m: nat, d: nat, secs: nat)
    requires
        1000 <= y < 10000,
        is_date(y, m, d),
        secs < 86400,
    ensures
        date_text(y, m, d, secs) == stamp(y, m, d, secs / 3600, secs % 3600 / 60, secs % 60),
        is_stamp(date_text(y, m, d, secs)),
{
    let (h, i, s) = (secs / 3600, secs % 3600 / 60, secs % 60);
    lemma_padded_four(y);
    lemma_padded_two(m);
    lemma_padded_two(d);
    lemma_padded_two(h);
    lemma_padded_two(i);
    lemma_padded_two(s);
    reveal_strlit("-");
    reveal_strlit("T");
    reveal_strlit(":");
    reveal_strlit("Z");
    reveal(stamp);
    assert(date_text(y, m, d, secs) =~= stamp(y, m, d, h, i, s));
}

/// The year of a moment before the year 10000.
proof fn lemma_year_range(y: nat, m: nat, d: nat, secs: nat)
    requires
        is_date(y, m, d),
        day_number(y, m, d) == day_number(1970, 1, 1) + secs as int / 86400,
        secs < FIVE_DIGIT_YEARS,
    ensures
        1970 <= y < 10000,
{
    lemma_epoch();
    lemma_days_before_month(y, m);
    lemma_days_before_year(1970);
    lemma_days_before_year(10000);
    if y < 1970 {
        lemma_year_order(y, 1970);
    }
    if y > 10000 {
        lemma_year_order(10000, y);
    }
}

/// Dates with smaller numbers come first: by year, by month, by day.
proof fn lemma_date_order(y1: nat, m1: nat, d1: nat, y2: nat, m2: nat, d2: nat)
    requires
        is_date(y1, m1, d1),
        is_date(y2, m2, d2),
        day_number(y1, m1, d1) < day_number(y2, m2, d2),
    ensures
        y1 < y2 || (y1 == y2 && (m1 < m2 || (m1 == m2 && d1 < d2))),
{
    lemma_days_before_month(y1, m1);
    lemma_days_before_month(y2, m2);
    if y2 < y1 {
        lemma_year_order(y2, y1);
    }
}

proof fn lemma_two_digits_order(a: nat, b: nat)
    requires
        a < b < 100,
    ensures
        a / 10 < b / 10 || (a / 10 == b / 10 && a % 10 < b % 10),
{
}

proof fn lemma_four_digits_order(a: nat, b: nat)
    requires
        a < b < 10000,
    ensures
        ({
            ||| a / 1000 < b / 1000
            ||| a / 1000 == b / 1000 && a / 100 % 10 < b / 100 % 10
            ||| a / 1000 == b / 1000 && a / 100 % 10 == b / 100 % 10 && a / 10 % 10 < b / 10 % 10
            ||| a / 1000 == b / 1000 && a / 100 % 10 == b / 100 % 10 && a / 10 % 10 == b / 10 % 10 && a % 10 < b % 10
        }),
{
}

proof fn lemma_digits_order(a: nat, b: nat)
    requires
        a < b < 10,
    ensures
        digit_char(a) < digit_char(b),
{
}

/// Where the fields of two stamps are ordered, so are their texts.
proof fn lemma_stamps_order(
    y1: nat,
    m1: nat,
    d1: nat,
    h1: nat,
    i1: nat,
    s1: nat,
    y2: nat,
    m2: nat,
    d2: nat,
    h2: nat,
    i2: nat,
    s2: nat,
)
    requires
        y1 < 10000 && m1 < 100 && d1 < 100 && h1 < 100 && i1 < 100 && s1 < 100,
        y2 < 10000 && m2 < 100 && d2 < 100 && h2 < 100 && i2 < 100 && s2 < 100,
        ({
            ||| y1 < y2
            ||| y1 == y2 && m1 < m2
            ||| y1 == y2 && m1 == m2 && d1 < d2
            ||| y1 == y2 && m1 == m2 && d1 == d2 && h1 < h2
            ||| y1 == y2 && m1 == m2 && d1 == d2 && h1 == h2 && i1 < i2
            ||| y1 == y2 && m1 == m2 && d1 == d2 && h1 == h2 && i1 == i2 && s1 < s2
        }),
    ensures
        stands_before(stamp(y1, m1, d1, h1, i1, s1), stamp(y2, m2, d2, h2, i2, s2)),
{
    reveal(stamp);
    let (a, b) = (stamp(y1, m1, d1, h1, i1, s1), stamp(y2, m2, d2, h2, i2, s2));
    if y1 < y2 {
        lemma_four_digits_order(y1, y2);
        let k: int = if y1 / 1000 < y2 / 1000 {
            0
        } else if y1 / 100 % 10 < y2 / 100 % 10 {
            1
        } else if y1 / 10 % 10 < y2 / 10 % 10 {
            2
        } else {
            3
        };
        assert(a[k] < b[k]);
    } else {
        let (at, p, q): (int, nat, nat) = if m1 < m2 {
            (5, m1, m2)
        } else if m1 == m2 && d1 < d2 {
            (8, d1, d2)
        } else if h1 < h2 {
            (11, h1, h2)
        } else if i1 < i2 {
            (14, i1, i2)
        } else {
            (17, s1, s2)
        };
        lemma_two_digits_order(p, q);
        let k: int = if p / 10 < q / 10 { at } else { at + 1 };
        assert(a[k] < b[k]);
        assert forall|j: int| 0 <= j < k implies a[j] == b[j] by {}
    }
}

proof fn lemma_time_order(p: nat, q: nat)
    requires
        p < q < 86400,
    ensures
        ({
            ||| p / 3600 < q / 3600
            ||| p / 3600 == q / 3600 && p % 3600 / 60 < q % 3600 / 60
            ||| p / 3600 == q / 3600 && p % 3600 / 60 == q % 3600 / 60 && p % 60 < q % 60
        }),
{
}

proof fn lemma_stamp_tail(y1: nat, m1: nat, d1: nat, y2: nat, m2: nat, d2: nat, h: nat, i: nat, s: nat)
    ensures
        stamp(y1, m1, d1, h, i, s).skip(10) == stamp(y2, m2, d2, h, i, s).skip(10),
{
    reveal(stamp);
    assert(stamp(y1, m1, d1, h, i, s).skip(10) =~= stamp(y2, m2, d2, h, i, s).skip(10));
}

/// The stamp of a moment before the year 10000.
proof fn lemma_moment_stamp(t: Seq<char>, s: nat, y: nat, m: nat, d: nat)
    requires
        is_moment(t, s, y, m, d),
        s < FIVE_DIGIT_YEARS,
    ensures
        1970 <= y < 10000,
        m <= 12,
        d <= 31,
        is_stamp(t),
        t == stamp(y, m, d, s % 86400 / 3600, s % 86400 % 3600 / 60, s % 86400 % 60),
{
    lemma_year_range(y, m, d, s);
    lemma_stamp(y, m, d, s % 86400);
}

/// Later moments have later texts, in dictionary order, up to the year 10000.
/// Both texts have the form `YYYY-MM-DDThh:mm:ssZ`.
pub proof fn lemma_later_texts_stand_behind(
    a: Seq<char>,
    s: nat,
    y1: nat,
    m1: nat,
    d1: nat,
    b: Seq<char>,
    t: nat,
    y2: nat,
    m2: nat,
    d2: nat,
)
    requires
        is_moment(a, s, y1, m1, d1),
        is_moment(b, t, y2, m2, d2),
        s < t < FIVE_DIGIT_YEARS,
    ensures
        is_stamp(a),
        is_stamp(b),
        stands_before(a, b),
{
    let (p, q) = (s % 86400, t % 86400);
    lemma_moment_stamp(a, s, y1, m1, d1);
    lemma_moment_stamp(b, t, y2, m2, d2);
    if s / 86400 < t / 86400 {
        lemma_date_order(y1, m1, d1, y2, m2, d2);
    } else {
        assert(s / 86400 == t / 86400 && p < q);
        lemma_date_unique(y1, m1, d1, y2, m2, d2);
        lemma_time_order(p, q);
    }
    lemma_stamps_order(
        y1,
        m1,
        d1,
        p / 3600,
        p % 3600 / 60,
        p % 60,
        y2,
        m2,
        d2,
        q / 3600,
        q % 3600 / 60,
        q % 60,
    );
}

/// A day later the text names the next day of the calendar at the same time of
/// day.
pub proof fn lemma_a_day_later(
    a: Seq<char>,
    s: nat,
    y1: nat,
    m1: nat,
    d1: nat,
    b: Seq<char>,
    y2: nat,
    m2: nat,
    d2: nat,
)
    requires
        is_moment(a, s, y1, m1, d1),
        is_moment(b, s + 86400, y2, m2, d2),
        s + 86400 < FIVE_DIGIT_YEARS,
    ensures
        day_number(y2, m2, d2) == day_number(y1, m1, d1) + 1,
        a.skip(10) == b.skip(10),
{
    assert((s + 86400) % 86400 == s % 86400 && (s + 86400) / 86400 == s / 86400 + 1);
    lemma_moment_stamp(a, s, y1, m1, d1);
    lemma_moment_stamp(b, s + 86400, y2, m2, d2);
    let r = s % 86400;
    lemma_stamp_tail(y1, m1, d1, y2, m2, d2, r / 3600, r % 3600 / 60, r % 60);
}

} // verus!
