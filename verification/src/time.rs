//! The temporal codec: a verified proleptic-Gregorian calendar (days
//! since the Unix epoch to and from civil dates), an ISO-8601 datetime
//! parser covering calendar, week and ordinal dates with fractional
//! seconds and UTC offsets, and an RFC-3339 formatter. Parsing reports
//! normalized UTC seconds and the explicit offset, a zero offset
//! counting as "no offset recorded".

use vstd::prelude::*;

use vstd::arithmetic::div_mod::{
    lemma_fundamental_div_mod, lemma_fundamental_div_mod_converse,
};
use vstd::arithmetic::div_mod::lemma_mod_bound;
use vstd::arithmetic::mul::{
    lemma_mul_basics, lemma_mul_inequality, lemma_mul_is_associative, lemma_mul_is_commutative,
    lemma_mul_is_distributive_add_other_way, lemma_mul_is_distributive_sub,
    lemma_mul_unary_negation,
};

use crate::strutil::{spec_is_digit, spec_digits_val};

verus! {

/// A proleptic-Gregorian leap year.
pub open spec fn spec_is_leap(y: int) -> bool {
    y % 4 == 0 && (y % 100 != 0 || y % 400 == 0)
}

/// Days in a month of the proleptic-Gregorian calendar; 0 for a month
/// number outside 1..=12.
pub open spec fn spec_days_in_month(y: int, m: int) -> int {
    if m == 2 {
        if spec_is_leap(y) {
            29
        } else {
            28
        }
    } else if m == 4 || m == 6 || m == 9 || m == 11 {
        30
    } else if 1 <= m <= 12 {
        31
    } else {
        0
    }
}

/// Days of year `y` that lie before month `m`.
pub open spec fn spec_month_prefix(y: int, m: int) -> int
    decreases m,
{
    if m <= 1 {
        0
    } else {
        spec_month_prefix(y, m - 1) + spec_days_in_month(y, m - 1)
    }
}

/// The length of year `y` in days.
pub open spec fn spec_year_len(y: int) -> int {
    if spec_is_leap(y) {
        366
    } else {
        365
    }
}

/// Days from the Unix epoch to the first day of year `y`; negative for
/// years before 1970. This recursion is the calendar's definition: each
/// year contributes exactly its length.
pub open spec fn spec_days_to_year(y: int) -> int
    decreases (if y >= 1970 {
        y - 1970
    } else {
        1970 - y
    }),
{
    if y == 1970 {
        0
    } else if y > 1970 {
        spec_days_to_year(y - 1) + spec_year_len(y - 1)
    } else {
        spec_days_to_year(y + 1) - spec_year_len(y)
    }
}

/// The day number (days since the Unix epoch) of a civil date.
pub open spec fn spec_days_from_civil(y: int, m: int, d: int) -> int {
    spec_days_to_year(y) + spec_month_prefix(y, m) + (d - 1)
}

/// A real calendar date.
pub open spec fn spec_valid_ymd(y: int, m: int, d: int) -> bool {
    1 <= m <= 12 && 1 <= d <= spec_days_in_month(y, m)
}

/// The number of multiples of `d` in `[0, y)`, negated for negative `y`.
pub open spec fn spec_cnt_div(y: int, d: int) -> int {
    (y + d - 1) / d
}

/// The closed form of `spec_days_to_year`.
pub open spec fn spec_days_to_year_closed(y: int) -> int {
    365 * y + spec_cnt_div(y, 4) - spec_cnt_div(y, 100) + spec_cnt_div(y, 400) - 719528
}

/// Crossing from year `y` to `y + 1` raises the multiple count of `d`
/// exactly when `d` divides `y`.
proof fn lemma_cnt_step(y: int, d: int)
    requires
        d >= 1,
    ensures
        spec_cnt_div(y + 1, d) - spec_cnt_div(y, d) == if y % d == 0 {
            1int
        } else {
            0int
        },
{
    let q = y / d;
    let r = y % d;
    lemma_fundamental_div_mod(y, d);
    lemma_mod_bound(y, d);
    assert(y == d * q + r);
    assert((q + 1) * d == q * d + 1 * d) by {
        lemma_mul_is_distributive_add_other_way(d, q, 1);
    }
    assert(q * d == d * q) by {
        lemma_mul_is_commutative(q, d);
    }
    assert(1 * d == d) by {
        lemma_mul_basics(d);
    }
    assert(y + d == (q + 1) * d + r);
    lemma_fundamental_div_mod_converse(y + d, d, q + 1, r);
    assert((y + 1) + d - 1 == y + d);
    if r == 0 {
        assert(y + d - 1 == q * d + (d - 1));
        lemma_fundamental_div_mod_converse(y + d - 1, d, q, d - 1);
    } else {
        assert(y + d - 1 == (q + 1) * d + (r - 1));
        lemma_fundamental_div_mod_converse(y + d - 1, d, q + 1, r - 1);
    }
}

/// Whether `d` divides 100k whenever it divides 100 and k is whole:
/// a multiple of 100 is a multiple of 4, and a multiple of 400 is a
/// multiple of 100 and of 4.
proof fn lemma_divisibility_chain(y: int)
    ensures
        y % 400 == 0 ==> y % 100 == 0,
        y % 100 == 0 ==> y % 4 == 0,
{
    if y % 400 == 0 {
        lemma_fundamental_div_mod(y, 400);
        let q = y / 400;
        assert(y == 400 * q);
        assert((4 * q) * 100 == 400 * q) by {
            lemma_mul_is_associative(4, q, 100);
            lemma_mul_is_commutative(q, 100);
            lemma_mul_is_associative(4, 100, q);
        }
        lemma_fundamental_div_mod_converse(y, 100, 4 * q, 0);
    }
    if y % 100 == 0 {
        lemma_fundamental_div_mod(y, 100);
        let q = y / 100;
        assert(y == 100 * q);
        assert((25 * q) * 4 == 100 * q) by {
            lemma_mul_is_associative(25, q, 4);
            lemma_mul_is_commutative(q, 4);
            lemma_mul_is_associative(25, 4, q);
        }
        lemma_fundamental_div_mod_converse(y, 4, 25 * q, 0);
    }
}

/// The length of a year as a sum of divisibility indicators.
proof fn lemma_year_len_indicators(y: int)
    ensures
        spec_year_len(y) == 365 + (if y % 4 == 0 {
            1int
        } else {
            0int
        }) - (if y % 100 == 0 {
            1int
        } else {
            0int
        }) + (if y % 400 == 0 {
            1int
        } else {
            0int
        }),
{
    lemma_divisibility_chain(y);
}

/// The recursive day count and its closed form agree everywhere.
pub proof fn lemma_days_to_year_closed(y: int)
    ensures
        spec_days_to_year(y) == spec_days_to_year_closed(y),
    decreases (if y >= 1970 {
        y - 1970
    } else {
        1970 - y
    }),
{
    if y == 1970 {
        assert(spec_days_to_year_closed(1970) == 0) by {
            lemma_fundamental_div_mod_converse(1973, 4, 493, 1);
            lemma_fundamental_div_mod_converse(2069, 100, 20, 69);
            lemma_fundamental_div_mod_converse(2369, 400, 5, 369);
        }
    } else if y > 1970 {
        lemma_days_to_year_closed(y - 1);
        lemma_cnt_step(y - 1, 4);
        lemma_cnt_step(y - 1, 100);
        lemma_cnt_step(y - 1, 400);
        lemma_year_len_indicators(y - 1);
    } else {
        lemma_days_to_year_closed(y + 1);
        lemma_cnt_step(y, 4);
        lemma_cnt_step(y, 100);
        lemma_cnt_step(y, 400);
        lemma_year_len_indicators(y);
    }
}

/// Stepping one year forward adds exactly that year's length.
pub proof fn lemma_days_to_year_succ(y: int)
    ensures
        spec_days_to_year(y + 1) == spec_days_to_year(y) + spec_year_len(y),
{
}

/// Euclidean division stays within the dividend's magnitude.
proof fn lemma_div_euclid_in_range(a: int, b: int)
    requires
        b >= 1,
    ensures
        a >= 0 ==> 0 <= a / b <= a,
        a < 0 ==> a <= a / b <= 0,
{
    let q = a / b;
    let r = a % b;
    lemma_fundamental_div_mod(a, b);
    lemma_mod_bound(a, b);
    if a >= 0 {
        if q < 0 {
            assert(b * (-q) >= 1 * (-q)) by {
                lemma_mul_inequality(1, b, -q);
            }
            assert(b * (-q) == -(b * q)) by {
                lemma_mul_is_commutative(b, -q);
                lemma_mul_unary_negation(q, b);
                lemma_mul_is_commutative(b, q);
            }
            assert(1 * (-q) == -q) by {
                lemma_mul_basics(-q);
            }
            assert(false);
        }
        if q > a {
            assert(b * q >= 1 * q) by {
                lemma_mul_inequality(1, b, q);
            }
            assert(1 * q == q) by {
                lemma_mul_basics(q);
            }
            assert(false);
        }
    } else {
        if q > 0 {
            assert(b * q >= 1 * q) by {
                lemma_mul_inequality(1, b, q);
            }
            assert(1 * q == q) by {
                lemma_mul_basics(q);
            }
            assert(false);
        }
        if q < a {
            assert(b * q + r == a);
            if b == 1 {
                assert(b * q == q) by {
                    lemma_mul_is_commutative(b, q);
                    lemma_mul_basics(q);
                }
                assert(false);
            } else {
                assert((-q) * (b - 1) >= 1 * (b - 1)) by {
                    lemma_mul_inequality(1, -q, b - 1);
                }
                assert(1 * (b - 1) == b - 1) by {
                    lemma_mul_basics(b - 1);
                }
                assert((-q) * (b - 1) == (-q) * b - (-q) * 1) by {
                    lemma_mul_is_distributive_sub(-q, b, 1);
                }
                assert((-q) * 1 == -q) by {
                    lemma_mul_basics(-q);
                }
                assert((-q) * b == -(q * b)) by {
                    lemma_mul_unary_negation(q, b);
                }
                assert(q * b == b * q) by {
                    lemma_mul_is_commutative(q, b);
                }
                assert(-(b * q) + q >= b - 1);
                assert(b * q == a - r);
                assert(-(a - r) + q >= b - 1);
                assert(q >= b - 1 + a - r);
                assert(r <= b - 1);
                assert(q >= a);
                assert(false);
            }
        }
    }
}

/// Euclidean quotient, as `/` means it in specifications.
fn div_eu(a: i64, b: i64) -> (r: i64)
    requires
        b >= 1,
        a != i64::MIN,
    ensures
        r == a as int / b as int,
{
    proof {
        lemma_div_euclid_in_range(a as int, b as int);
    }
    match a.checked_div_euclid(b) {
        Some(v) => v,
        None => vstd::pervasive::unreached(),
    }
}

/// Euclidean remainder, as `%` means it in specifications.
fn mod_eu(a: i64, b: i64) -> (r: i64)
    requires
        b >= 1,
        a != i64::MIN,
    ensures
        r == a as int % b as int,
        0 <= r < b,
{
    proof {
        lemma_div_euclid_in_range(a as int, b as int);
        lemma_fundamental_div_mod(a as int, b as int);
        broadcast use vstd::arithmetic::mul::group_mul_properties;

    }
    match a.checked_rem_euclid(b) {
        Some(v) => v,
        None => vstd::pervasive::unreached(),
    }
}

/// Whether year `y` is a leap year.
pub fn is_leap(y: i64) -> (r: bool)
    requires
        -500_000_000_000 <= y <= 500_000_000_000,
    ensures
        r == spec_is_leap(y as int),
{
    mod_eu(y, 4) == 0 && (mod_eu(y, 100) != 0 || mod_eu(y, 400) == 0)
}

/// Days in month `m` of year `y`.
pub fn days_in_month(y: i64, m: u8) -> (r: u8)
    requires
        -500_000_000_000 <= y <= 500_000_000_000,
    ensures
        r == spec_days_in_month(y as int, m as int),
{
    if m == 2 {
        if is_leap(y) {
            29
        } else {
            28
        }
    } else if m == 4 || m == 6 || m == 9 || m == 11 {
        30
    } else if 1 <= m && m <= 12 {
        31
    } else {
        0
    }
}

/// Days from the Unix epoch to the first day of year `y`, by the
/// closed form.
fn days_to_year(y: i64) -> (r: i64)
    requires
        -500_000_000_000 <= y <= 500_000_000_000,
    ensures
        r == spec_days_to_year(y as int),
{
    proof {
        lemma_days_to_year_closed(y as int);
        lemma_div_euclid_in_range(y as int + 3, 4);
        lemma_div_euclid_in_range(y as int + 99, 100);
        lemma_div_euclid_in_range(y as int + 399, 400);
    }
    let c4 = div_eu(y + 3, 4);
    let c100 = div_eu(y + 99, 100);
    let c400 = div_eu(y + 399, 400);
    365 * y + c4 - c100 + c400 - 719528
}

/// Days of year `y` before month `m`.
fn month_prefix(y: i64, m: u8) -> (r: u16)
    requires
        -500_000_000_000 <= y <= 500_000_000_000,
        1 <= m <= 13,
    ensures
        r == spec_month_prefix(y as int, m as int),
{
    let mut acc: u16 = 0;
    let mut k: u8 = 1;
    while k < m
        invariant
            1 <= k <= m <= 13,
            -500_000_000_000 <= y <= 500_000_000_000,
            acc == spec_month_prefix(y as int, k as int),
            acc <= 366,
        decreases m - k,
    {
        proof {
            lemma_month_prefix_bounds(y as int, k as int + 1);
            lemma_month_prefix_total(y as int);
        }
        acc = acc + days_in_month(y, k) as u16;
        k = k + 1;
    }
    acc
}

/// The whole year, via the month table.
pub proof fn lemma_month_prefix_total(y: int)
    ensures
        spec_month_prefix(y, 13) == spec_year_len(y),
{
    reveal_with_fuel(spec_month_prefix, 14);
}

/// Month prefixes grow with the month.
pub proof fn lemma_month_prefix_mono(y: int, a: int, b: int)
    requires
        1 <= a <= b <= 13,
    ensures
        spec_month_prefix(y, a) <= spec_month_prefix(y, b),
    decreases b - a,
{
    if a < b {
        lemma_month_prefix_mono(y, a, b - 1);
    }
}

/// Month prefixes are non-negative, bounded by the year, and adding
/// the month itself stays within the year.
pub proof fn lemma_month_prefix_bounds(y: int, m: int)
    requires
        1 <= m <= 13,
    ensures
        0 <= spec_month_prefix(y, m) <= spec_month_prefix(y, 13),
        m <= 12 ==> spec_month_prefix(y, m) + spec_days_in_month(y, m) <= spec_year_len(y),
    decreases 13 - m,
{
    lemma_month_prefix_mono(y, 1, m);
    lemma_month_prefix_mono(y, m, 13);
    lemma_month_prefix_total(y);
    if m <= 12 {
        lemma_month_prefix_mono(y, m + 1, 13);
        assert(spec_month_prefix(y, m + 1) == spec_month_prefix(y, m) + spec_days_in_month(
            y,
            m,
        ));
    }
}

/// The day number of a civil date, for years a parser can produce.
pub fn days_from_civil(y: i64, m: u8, d: u8) -> (r: i64)
    requires
        -500_000_000_000 <= y <= 500_000_000_000,
        1 <= m <= 12,
        1 <= d <= 31,
    ensures
        r == spec_days_from_civil(y as int, m as int, d as int),
{
    proof {
        lemma_days_to_year_closed(y as int);
    }
    let ty = days_to_year(y);
    let mp = month_prefix(y, m);
    ty + mp as i64 + (d as i64 - 1)
}

/// The civil date of a day number: the unique real calendar date whose
/// day number is `n`.
pub fn civil_from_days(n: i64) -> (r: (i64, u8, u8))
    requires
        -110_000_000_000_000 <= n <= 110_000_000_000_000,
    ensures
        spec_valid_ymd(r.0 as int, r.1 as int, r.2 as int),
        spec_days_from_civil(r.0 as int, r.1 as int, r.2 as int) == n,
        -500_000_000_000 <= r.0 <= 500_000_000_000,
{
    let mut lo: i64 = -400_000_000_000;
    let mut hi: i64 = 400_000_000_000;
    proof {
        lemma_days_to_year_closed(-400_000_000_000);
        lemma_days_to_year_closed(400_000_000_000);
        assert(spec_days_to_year_closed(-400_000_000_000) <= n
            < spec_days_to_year_closed(400_000_000_000)) by {
            lemma_fundamental_div_mod_converse(
                -399_999_999_997,
                4,
                -100_000_000_000,
                3,
            );
            lemma_fundamental_div_mod_converse(
                -399_999_999_901,
                100,
                -4_000_000_000,
                99,
            );
            lemma_fundamental_div_mod_converse(
                -399_999_999_601,
                400,
                -1_000_000_000,
                399,
            );
            lemma_fundamental_div_mod_converse(400_000_000_003, 4, 100_000_000_000, 3);
            lemma_fundamental_div_mod_converse(400_000_000_099, 100, 4_000_000_000, 99);
            lemma_fundamental_div_mod_converse(400_000_000_399, 400, 1_000_000_000, 399);
        }
    }
    while lo + 1 < hi
        invariant
            -400_000_000_000 <= lo < hi <= 400_000_000_000,
            spec_days_to_year(lo as int) <= n,
            n < spec_days_to_year(hi as int),
        decreases hi - lo,
    {
        let mid = lo + (hi - lo) / 2;
        assert(lo < mid < hi);
        if days_to_year(mid) <= n {
            lo = mid;
        } else {
            hi = mid;
        }
    }
    let y = lo;
    proof {
        lemma_days_to_year_succ(y as int);
    }
    let rem0 = n - days_to_year(y);
    proof {
        assert(0 <= rem0 < spec_year_len(y as int));
    }
    let rem: u16 = rem0 as u16;
    let mut m: u8 = 1;
    let mut acc: u16 = 0;
    while m < 12 && rem >= acc + days_in_month(y, m) as u16
        invariant
            1 <= m <= 12,
            -400_000_000_000 <= y <= 400_000_000_000,
            rem < spec_year_len(y as int),
            acc == spec_month_prefix(y as int, m as int),
            acc <= rem,
            acc <= 366,
        decreases 12 - m,
    {
        proof {
            lemma_month_prefix_bounds(y as int, m as int);
        }
        acc = acc + days_in_month(y, m) as u16;
        m = m + 1;
    }
    proof {
        if m == 12 {
            lemma_month_prefix_total(y as int);
            reveal_with_fuel(spec_month_prefix, 14);
        }
        lemma_month_prefix_bounds(y as int, m as int);
    }
    let d: u8 = (rem - acc + 1) as u8;
    (y, m, d)
}


/// What one date of the ISO-8601 grammar carries: a calendar date, a
/// week date, or an ordinal date.
pub ghost enum SpecDate {
    Ymd { y: int, m: int, d: int },
    Week { y: int, w: int, d: int },
    Ord { y: int, ddd: int },
}

/// The fields of a parsed ISO-8601 datetime, before calendar
/// validation. A missing zone reads as a zero offset.
pub ghost struct SpecDateTime {
    pub date: SpecDate,
    pub hour: int,
    pub minute: int,
    pub second: int,
    pub ms: int,
    pub tzh: int,
    pub tzm: int,
}

/// Skips one `-`, if present.
pub open spec fn spec_opt_dash(s: Seq<char>, i: int) -> int {
    if i < s.len() && s[i] == '-' {
        i + 1
    } else {
        i
    }
}

/// Skips one `:`, if present.
pub open spec fn spec_opt_colon(s: Seq<char>, i: int) -> int {
    if i < s.len() && s[i] == ':' {
        i + 1
    } else {
        i
    }
}

/// Reads exactly `n` decimal digits.
pub open spec fn spec_ndigits(s: Seq<char>, i: int, n: int) -> Option<(int, int)> {
    if 0 <= i && i + n <= s.len() && crate::strutil::spec_all_digits(s.subrange(i, i + n)) {
        Some((spec_digits_val(s.subrange(i, i + n)), i + n))
    } else {
        None
    }
}

/// Reads an optional sign; nothing read means `+`.
pub open spec fn spec_opt_sign(s: Seq<char>, i: int) -> (int, int) {
    if i < s.len() && s[i] == '-' {
        (-1, i + 1)
    } else if i < s.len() && s[i] == '+' {
        (1, i + 1)
    } else {
        (1, i)
    }
}

/// Reads a year: an optional sign and exactly four digits.
pub open spec fn spec_date_year(s: Seq<char>, i: int) -> Option<(int, int)> {
    let (sg, j) = spec_opt_sign(s, i);
    match spec_ndigits(s, j, 4) {
        Some((v, k)) => Some(
            (
                if sg < 0 {
                    -v
                } else {
                    v
                },
                k,
            ),
        ),
        None => None,
    }
}

/// Reads `n` digits whose value must lie in `lo..=hi`.
pub open spec fn spec_ndigits_range(s: Seq<char>, i: int, n: int, lo: int, hi: int) -> Option<
    (int, int),
> {
    match spec_ndigits(s, i, n) {
        Some((v, k)) => if lo <= v <= hi {
            Some((v, k))
        } else {
            None
        },
        None => None,
    }
}

/// A calendar date: year, optional dash, month, optional dash, day.
pub open spec fn spec_date_ymd(s: Seq<char>, i: int) -> Option<(SpecDate, int)> {
    match spec_date_year(s, i) {
        Some((y, j0)) => {
            let j1 = spec_opt_dash(s, j0);
            match spec_ndigits_range(s, j1, 2, 1, 12) {
                Some((m, j2)) => {
                    let j3 = spec_opt_dash(s, j2);
                    match spec_ndigits_range(s, j3, 2, 1, 31) {
                        Some((d, j4)) => Some((SpecDate::Ymd { y, m, d }, j4)),
                        None => None,
                    }
                },
                None => None,
            }
        },
        None => None,
    }
}

/// A week date: year, optional dash, `W`, week, optional dash, weekday.
pub open spec fn spec_date_week(s: Seq<char>, i: int) -> Option<(SpecDate, int)> {
    match spec_date_year(s, i) {
        Some((y, j0)) => {
            let j1 = spec_opt_dash(s, j0);
            if j1 < s.len() && s[j1] == 'W' {
                match spec_ndigits_range(s, j1 + 1, 2, 1, 53) {
                    Some((w, j2)) => {
                        let j3 = spec_opt_dash(s, j2);
                        match spec_ndigits_range(s, j3, 1, 1, 7) {
                            Some((d, j4)) => Some((SpecDate::Week { y, w, d }, j4)),
                            None => None,
                        }
                    },
                    None => None,
                }
            } else {
                None
            }
        },
        None => None,
    }
}

/// An ordinal date: year, optional dash, day of year.
pub open spec fn spec_date_ordinal(s: Seq<char>, i: int) -> Option<(SpecDate, int)> {
    match spec_date_year(s, i) {
        Some((y, j0)) => {
            let j1 = spec_opt_dash(s, j0);
            match spec_ndigits_range(s, j1, 3, 1, 366) {
                Some((ddd, j2)) => Some((SpecDate::Ord { y, ddd }, j2)),
                None => None,
            }
        },
        None => None,
    }
}

/// A date, trying the calendar, week and ordinal forms in that order.
pub open spec fn spec_parse_date(s: Seq<char>, i: int) -> Option<(SpecDate, int)> {
    match spec_date_ymd(s, i) {
        Some(r) => Some(r),
        None => match spec_date_week(s, i) {
            Some(r) => Some(r),
            None => spec_date_ordinal(s, i),
        },
    }
}

/// The position right after the run of digits starting at `i`.
pub open spec fn spec_skip_digits(s: Seq<char>, i: int) -> int
    decreases s.len() - i,
{
    if 0 <= i < s.len() && spec_is_digit(s[i]) {
        spec_skip_digits(s, i + 1)
    } else {
        i
    }
}

/// The millisecond value of a fraction digit run: the first three
/// digits, scaled up when fewer were given, the rest discarded.
pub open spec fn spec_fraction_ms(s: Seq<char>, i: int) -> (int, int) {
    let j = spec_skip_digits(s, i);
    let l = j - i;
    if l == 0 {
        (0, j)
    } else if l == 1 {
        (spec_digits_val(s.subrange(i, i + 1)) * 100, j)
    } else if l == 2 {
        (spec_digits_val(s.subrange(i, i + 2)) * 10, j)
    } else {
        (spec_digits_val(s.subrange(i, i + 3)), j)
    }
}

/// An explicit zone: `Z`, or a sign with hours and optional minutes.
pub open spec fn spec_timezone(s: Seq<char>, i: int) -> Option<((int, int), int)> {
    if i < s.len() && (s[i] == '-' || s[i] == '+') {
        let neg = s[i] == '-';
        match spec_ndigits_range(s, i + 1, 2, 0, 24) {
            Some((h, j0)) => {
                let j1 = spec_opt_colon(s, j0);
                match spec_ndigits_range(s, j1, 2, 0, 59) {
                    Some((m, j2)) => Some(
                        (
                            if neg {
                                (-h, -m)
                            } else {
                                (h, m)
                            },
                            j2,
                        ),
                    ),
                    None => Some(
                        (
                            if neg {
                                (-h, 0int)
                            } else {
                                (h, 0int)
                            },
                            j0,
                        ),
                    ),
                }
            },
            None => None,
        }
    } else if i < s.len() && s[i] == 'Z' {
        Some(((0, 0), i + 1))
    } else {
        None
    }
}

/// A time: hours, minutes, and optional seconds, fraction and zone.
pub open spec fn spec_parse_time(s: Seq<char>, i: int) -> Option<(SpecDateTime, int)> {
    match spec_ndigits_range(s, i, 2, 0, 24) {
        Some((h, j0)) => {
            let j1 = spec_opt_colon(s, j0);
            match spec_ndigits_range(s, j1, 2, 0, 59) {
                Some((mi, j2)) => {
                    let (sec, j3) = match spec_ndigits_range(s, spec_opt_colon(s, j2), 2, 0, 60) {
                        Some((v, k)) => (v, k),
                        None => (0, j2),
                    };
                    let (ms, j4) = if j3 < s.len() && (s[j3] == '.' || s[j3] == ',') {
                        spec_fraction_ms(s, j3 + 1)
                    } else {
                        (0, j3)
                    };
                    let ((tzh, tzm), j5) = match spec_timezone(s, j4) {
                        Some((z, k)) => (z, k),
                        None => ((0, 0), j4),
                    };
                    Some(
                        (
                            SpecDateTime {
                                date: SpecDate::Ord { y: 0, ddd: 1 },
                                hour: h,
                                minute: mi,
                                second: sec,
                                ms: ms,
                                tzh: tzh,
                                tzm: tzm,
                            },
                            j5,
                        ),
                    )
                },
                None => None,
            }
        },
        None => None,
    }
}

/// A datetime: a date, a literal `T`, a time; input after the time is
/// ignored.
pub open spec fn spec_parse_datetime(s: Seq<char>) -> Option<SpecDateTime> {
    match spec_parse_date(s, 0) {
        Some((date, i)) => if i < s.len() && s[i] == 'T' {
            match spec_parse_time(s, i + 1) {
                Some((t, _)) => Some(
                    SpecDateTime {
                        date: date,
                        hour: t.hour,
                        minute: t.minute,
                        second: t.second,
                        ms: t.ms,
                        tzh: t.tzh,
                        tzm: t.tzm,
                    },
                ),
                None => None,
            }
        } else {
            None
        },
        None => None,
    }
}

/// The ISO weekday (Monday = 1) of a day number.
pub open spec fn spec_iso_weekday_of(n: int) -> int {
    (n + 3) % 7 + 1
}

/// The day number of the Monday beginning ISO week 1 of year `y`: the
/// week that holds January 4th.
pub open spec fn spec_week1_monday(y: int) -> int {
    let jan4 = spec_days_to_year(y) + 3;
    jan4 - (spec_iso_weekday_of(jan4) - 1)
}

/// How many ISO weeks year `y` has: 53 when the year starts on a
/// Thursday, or is a leap year starting on a Wednesday; else 52.
pub open spec fn spec_iso_weeks_in_year(y: int) -> int {
    let wd = spec_iso_weekday_of(spec_days_to_year(y));
    if wd == 4 || (spec_is_leap(y) && wd == 3) {
        53
    } else {
        52
    }
}

/// The day number a parsed date names, when it is a real date.
pub open spec fn spec_date_days(date: SpecDate) -> Option<int> {
    match date {
        SpecDate::Ymd { y, m, d } => if spec_valid_ymd(y, m, d) {
            Some(spec_days_from_civil(y, m, d))
        } else {
            None
        },
        SpecDate::Ord { y, ddd } => if 1 <= ddd <= spec_year_len(y) {
            Some(spec_days_to_year(y) + ddd - 1)
        } else {
            None
        },
        SpecDate::Week { y, w, d } => if 1 <= w <= spec_iso_weeks_in_year(y) && 1 <= d <= 7 {
            Some(spec_week1_monday(y) + (w - 1) * 7 + (d - 1))
        } else {
            None
        },
    }
}

/// The UTC instant and offset a parsed datetime names: the civil date
/// must be real, the time of day within a normal day, and the offset
/// shorter than a day. Milliseconds are dropped, toward minus
/// infinity.
pub open spec fn spec_instant_of(dt: SpecDateTime) -> Option<(int, int)> {
    let off = dt.tzh * 3600 + dt.tzm * 60;
    match spec_date_days(dt.date) {
        Some(days) => if dt.hour <= 23 && dt.second <= 59 && -86400 < off < 86400 {
            Some((days * 86400 + dt.hour * 3600 + dt.minute * 60 + dt.second - off, off))
        } else {
            None
        },
        None => None,
    }
}

/// What `timestamp_offset` returns on a string: the UTC seconds and
/// the offset, a zero offset reading as none at all.
pub open spec fn spec_timestamp_offset(s: Seq<char>) -> Option<(int, Option<int>)> {
    match spec_parse_datetime(s) {
        Some(dt) => match spec_instant_of(dt) {
            Some((t, off)) => Some(
                (
                    t,
                    if off != 0 {
                        Some(off)
                    } else {
                        None
                    },
                ),
            ),
            None => None,
        },
        None => None,
    }
}

/// What `timestamp` returns on a string: the UTC seconds alone.
pub open spec fn spec_timestamp(s: Seq<char>) -> Option<int> {
    match spec_timestamp_offset(s) {
        Some((t, _)) => Some(t),
        None => None,
    }
}


/// Ten to the `k`.
pub open spec fn spec_pow10(k: int) -> int
    decreases k,
{
    if k <= 0 {
        1
    } else {
        10 * spec_pow10(k - 1)
    }
}

/// A digit run of bounded length has a bounded value.
pub proof fn lemma_digits_val_bound(s: Seq<char>, k: int)
    requires
        crate::strutil::spec_all_digits(s),
        s.len() <= k,
        0 <= k,
    ensures
        0 <= spec_digits_val(s) < spec_pow10(k),
    decreases s.len(),
{
    if s.len() == 0 {
        lemma_pow10_mono(0, k);
    } else {
        assert(crate::strutil::spec_all_digits(s.drop_last())) by {
            assert(forall|i: int|
                0 <= i < s.drop_last().len() ==> s.drop_last()[i] == #[trigger] s[i]);
        }
        lemma_digits_val_bound(s.drop_last(), k - 1);
        assert(spec_is_digit(s.last()));
        assert(spec_pow10(k) == 10 * spec_pow10(k - 1));
        lemma_pow10_mono(0, k - 1);
    }
}

/// Powers of ten grow with the exponent.
pub proof fn lemma_pow10_mono(a: int, b: int)
    requires
        0 <= a <= b,
    ensures
        0 < spec_pow10(a) <= spec_pow10(b),
    decreases b,
{
    if a < b {
        lemma_pow10_mono(a, b - 1);
    } else if b > 0 {
        lemma_pow10_mono(0, b - 1);
    }
}

/// The date forms the executable parser can return.
pub enum IsoDate {
    /// A calendar date.
    Ymd { y: i32, m: u8, d: u8 },
    /// An ISO week date.
    Week { y: i32, w: u8, d: u8 },
    /// An ordinal date.
    Ordinal { y: i32, ddd: u16 },
}

/// A parsed ISO-8601 datetime, before calendar validation.
pub struct IsoDateTime {
    pub date: IsoDate,
    pub hour: u8,
    pub minute: u8,
    pub second: u8,
    pub millisecond: u16,
    pub tz_offset_hours: i32,
    pub tz_offset_minutes: i32,
}

impl IsoDate {
    /// The mathematical reading of this date.
    pub open spec fn view_spec(self) -> SpecDate {
        match self {
            IsoDate::Ymd { y, m, d } => SpecDate::Ymd { y: y as int, m: m as int, d: d as int },
            IsoDate::Week { y, w, d } => SpecDate::Week { y: y as int, w: w as int, d: d as int },
            IsoDate::Ordinal { y, ddd } => SpecDate::Ord { y: y as int, ddd: ddd as int },
        }
    }
}

impl IsoDateTime {
    /// The mathematical reading of this datetime.
    pub open spec fn view_spec(self) -> SpecDateTime {
        SpecDateTime {
            date: self.date.view_spec(),
            hour: self.hour as int,
            minute: self.minute as int,
            second: self.second as int,
            ms: self.millisecond as int,
            tzh: self.tz_offset_hours as int,
            tzm: self.tz_offset_minutes as int,
        }
    }
}

/// Reads exactly `k` digits starting at `i`.
fn p_ndigits(s: &str, n: usize, i: usize, k: usize) -> (r: Option<(u32, usize)>)
    requires
        n == s@.len(),
        i <= n,
        1 <= k <= 4,
    ensures
        match r {
            Some((v, j)) => spec_ndigits(s@, i as int, k as int) == Some((v as int, j as int))
                && v <= 9999 && i < j <= n,
            None => spec_ndigits(s@, i as int, k as int) is None,
        },
{
    if n - i < k {
        return None;
    }
    let mut acc: u32 = 0;
    let mut j: usize = i;
    while j < i + k
        invariant
            n == s@.len(),
            i <= j <= i + k <= n,
            k <= 4,
            crate::strutil::spec_all_digits(s@.subrange(i as int, j as int)),
            acc == spec_digits_val(s@.subrange(i as int, j as int)),
            acc <= 9999,
        decreases i + k - j,
    {
        let c = s.get_char(j);
        let u = c as u32;
        if u < 48 || u > 57 {
            proof {
                assert(s@.subrange(i as int, k as int + i)[j - i] == s@[j as int]);
            }
            return None;
        }
        proof {
            assert(s@.subrange(i as int, j + 1).drop_last() =~= s@.subrange(i as int, j as int));
            assert(s@.subrange(i as int, j + 1).last() == s@[j as int]);
            lemma_digits_val_bound(s@.subrange(i as int, j as int), 3);
            lemma_digits_val_bound(s@.subrange(i as int, j + 1), 4);
            assert(spec_pow10(3) == 1000 && spec_pow10(4) == 10000) by {
                reveal_with_fuel(spec_pow10, 5);
            }
        }
        acc = acc * 10 + (u - 48);
        j = j + 1;
    }
    proof {
        assert(s@.subrange(i as int, i + k as int) == s@.subrange(i as int, j as int));
    }
    Some((acc, j))
}

/// Reads exactly `k` digits whose value lies in `lo..=hi`.
fn p_ndigits_range(s: &str, n: usize, i: usize, k: usize, lo: u32, hi: u32) -> (r: Option<
    (u32, usize),
>)
    requires
        n == s@.len(),
        i <= n,
        1 <= k <= 4,
    ensures
        match r {
            Some((v, j)) => spec_ndigits_range(s@, i as int, k as int, lo as int, hi as int)
                == Some((v as int, j as int)) && lo <= v <= hi && v <= 9999 && i < j <= n,
            None => spec_ndigits_range(s@, i as int, k as int, lo as int, hi as int) is None,
        },
{
    match p_ndigits(s, n, i, k) {
        Some((v, j)) => {
            if lo <= v && v <= hi {
                Some((v, j))
            } else {
                None
            }
        },
        None => None,
    }
}

/// Skips one `-`, if present.
fn p_opt_dash(s: &str, n: usize, i: usize) -> (r: usize)
    requires
        n == s@.len(),
        i <= n,
    ensures
        r == spec_opt_dash(s@, i as int),
        i <= r <= n,
{
    if i < n && s.get_char(i) == '-' {
        i + 1
    } else {
        i
    }
}

/// Skips one `:`, if present.
fn p_opt_colon(s: &str, n: usize, i: usize) -> (r: usize)
    requires
        n == s@.len(),
        i <= n,
    ensures
        r == spec_opt_colon(s@, i as int),
        i <= r <= n,
{
    if i < n && s.get_char(i) == ':' {
        i + 1
    } else {
        i
    }
}

/// Reads a year: an optional sign and four digits.
fn p_year(s: &str, n: usize, i: usize) -> (r: Option<(i32, usize)>)
    requires
        n == s@.len(),
        i <= n,
    ensures
        match r {
            Some((y, j)) => spec_date_year(s@, i as int) == Some((y as int, j as int))
                && -9999 <= y <= 9999 && i < j <= n,
            None => spec_date_year(s@, i as int) is None,
        },
{
    let (neg, j0): (bool, usize) = if i < n && s.get_char(i) == '-' {
        (true, i + 1)
    } else if i < n && s.get_char(i) == '+' {
        (false, i + 1)
    } else {
        (false, i)
    };
    match p_ndigits(s, n, j0, 4) {
        Some((v, j)) => {
            let y: i32 = if neg {
                -(v as i32)
            } else {
                v as i32
            };
            Some((y, j))
        },
        None => None,
    }
}

/// Reads a date in any of the three forms.
fn p_date(s: &str, n: usize, i: usize) -> (r: Option<(IsoDate, usize)>)
    requires
        n == s@.len(),
        i <= n,
    ensures
        match r {
            Some((d, j)) => spec_parse_date(s@, i as int) == Some((d.view_spec(), j as int)) && j
                <= n,
            None => spec_parse_date(s@, i as int) is None,
        },
{
    match p_date_ymd(s, n, i) {
        Some(r) => Some(r),
        None => match p_date_week(s, n, i) {
            Some(r) => Some(r),
            None => p_date_ordinal(s, n, i),
        },
    }
}

/// Reads a calendar date.
fn p_date_ymd(s: &str, n: usize, i: usize) -> (r: Option<(IsoDate, usize)>)
    requires
        n == s@.len(),
        i <= n,
    ensures
        match r {
            Some((d, j)) => spec_date_ymd(s@, i as int) == Some((d.view_spec(), j as int)) && j
                <= n,
            None => spec_date_ymd(s@, i as int) is None,
        },
{
    match p_year(s, n, i) {
        Some((y, j0)) => {
            let j1 = p_opt_dash(s, n, j0);
            match p_ndigits_range(s, n, j1, 2, 1, 12) {
                Some((m, j2)) => {
                    let j3 = p_opt_dash(s, n, j2);
                    match p_ndigits_range(s, n, j3, 2, 1, 31) {
                        Some((d, j4)) => Some(
                            (IsoDate::Ymd { y, m: m as u8, d: d as u8 }, j4),
                        ),
                        None => None,
                    }
                },
                None => None,
            }
        },
        None => None,
    }
}

/// Reads a week date.
fn p_date_week(s: &str, n: usize, i: usize) -> (r: Option<(IsoDate, usize)>)
    requires
        n == s@.len(),
        i <= n,
    ensures
        match r {
            Some((d, j)) => spec_date_week(s@, i as int) == Some((d.view_spec(), j as int)) && j
                <= n,
            None => spec_date_week(s@, i as int) is None,
        },
{
    match p_year(s, n, i) {
        Some((y, j0)) => {
            let j1 = p_opt_dash(s, n, j0);
            if j1 < n && s.get_char(j1) == 'W' {
                match p_ndigits_range(s, n, j1 + 1, 2, 1, 53) {
                    Some((w, j2)) => {
                        let j3 = p_opt_dash(s, n, j2);
                        match p_ndigits_range(s, n, j3, 1, 1, 7) {
                            Some((d, j4)) => Some(
                                (IsoDate::Week { y, w: w as u8, d: d as u8 }, j4),
                            ),
                            None => None,
                        }
                    },
                    None => None,
                }
            } else {
                None
            }
        },
        None => None,
    }
}

/// Reads an ordinal date.
fn p_date_ordinal(s: &str, n: usize, i: usize) -> (r: Option<(IsoDate, usize)>)
    requires
        n == s@.len(),
        i <= n,
    ensures
        match r {
            Some((d, j)) => spec_date_ordinal(s@, i as int) == Some((d.view_spec(), j as int))
                && j <= n,
            None => spec_date_ordinal(s@, i as int) is None,
        },
{
    match p_year(s, n, i) {
        Some((y, j0)) => {
            let j1 = p_opt_dash(s, n, j0);
            match p_ndigits_range(s, n, j1, 3, 1, 366) {
                Some((ddd, j2)) => Some((IsoDate::Ordinal { y, ddd: ddd as u16 }, j2)),
                None => None,
            }
        },
        None => None,
    }
}

/// Whether the character at `j` is a decimal digit.
fn at_digit(s: &str, n: usize, j: usize) -> (r: bool)
    requires
        n == s@.len(),
        j < n,
    ensures
        r == spec_is_digit(s@[j as int]),
{
    let u = s.get_char(j) as u32;
    48 <= u && u <= 57
}

/// Reads a fraction digit run and scales it to milliseconds.
fn p_fraction(s: &str, n: usize, i: usize) -> (r: (u16, usize))
    requires
        n == s@.len(),
        i <= n,
    ensures
        spec_fraction_ms(s@, i as int) == (r.0 as int, r.1 as int),
        i <= r.1 <= n,
        r.0 <= 999,
{
    let mut j: usize = i;
    while j < n && at_digit(s, n, j)
        invariant
            n == s@.len(),
            i <= j <= n,
            spec_skip_digits(s@, i as int) == spec_skip_digits(s@, j as int),
            forall|q: int| i <= q < j ==> spec_is_digit(#[trigger] s@[q]),
        decreases n - j,
    {
        j = j + 1;
    }
    proof {
        assert(spec_skip_digits(s@, j as int) == j as int);
    }
    let l = j - i;
    if l == 0 {
        (0, j)
    } else if l == 1 {
        let (v, _) = p_ndigits(s, n, i, 1).unwrap();
        proof {
            lemma_digits_val_bound(s@.subrange(i as int, i + 1), 1);
            reveal_with_fuel(spec_pow10, 2);
        }
        ((v * 100) as u16, j)
    } else if l == 2 {
        let (v, _) = p_ndigits(s, n, i, 2).unwrap();
        proof {
            lemma_digits_val_bound(s@.subrange(i as int, i + 2), 2);
            reveal_with_fuel(spec_pow10, 3);
        }
        ((v * 10) as u16, j)
    } else {
        let (v, _) = p_ndigits(s, n, i, 3).unwrap();
        proof {
            lemma_digits_val_bound(s@.subrange(i as int, i + 3), 3);
            reveal_with_fuel(spec_pow10, 4);
        }
        (v as u16, j)
    }
}

/// Whether the character at `j` opens a fraction.
fn at_fraction_mark(s: &str, n: usize, j: usize) -> (r: bool)
    requires
        n == s@.len(),
        j < n,
    ensures
        r == (s@[j as int] == '.' || s@[j as int] == ','),
{
    let c = s.get_char(j);
    c == '.' || c == ','
}

/// Reads an explicit zone.
fn p_timezone(s: &str, n: usize, i: usize) -> (r: Option<((i32, i32), usize)>)
    requires
        n == s@.len(),
        i <= n,
    ensures
        match r {
            Some(((h, m), j)) => spec_timezone(s@, i as int) == Some(
                ((h as int, m as int), j as int),
            ) && j <= n && -24 <= h <= 24 && -59 <= m <= 59,
            None => spec_timezone(s@, i as int) is None,
        },
{
    if i < n && (s.get_char(i) == '-' || s.get_char(i) == '+') {
        let neg = s.get_char(i) == '-';
        match p_ndigits_range(s, n, i + 1, 2, 0, 24) {
            Some((h, j0)) => {
                let th: i32 = if neg {
                    -(h as i32)
                } else {
                    h as i32
                };
                let j1 = p_opt_colon(s, n, j0);
                match p_ndigits_range(s, n, j1, 2, 0, 59) {
                    Some((m, j2)) => {
                        let tm: i32 = if neg {
                            -(m as i32)
                        } else {
                            m as i32
                        };
                        Some(((th, tm), j2))
                    },
                    None => Some(((th, 0), j0)),
                }
            },
            None => None,
        }
    } else if i < n && s.get_char(i) == 'Z' {
        Some(((0, 0), i + 1))
    } else {
        None
    }
}

/// Reads a time of day with its optional parts.
#[verifier::rlimit(30)]
fn p_time(s: &str, n: usize, i: usize) -> (r: Option<(IsoDateTime, usize)>)
    requires
        n == s@.len(),
        i <= n,
    ensures
        match r {
            Some((t, j)) => spec_parse_time(s@, i as int) matches Some((st, sj))
                && st.hour == t.hour && st.minute == t.minute && st.second == t.second && st.ms
                == t.millisecond && st.tzh == t.tz_offset_hours && st.tzm == t.tz_offset_minutes
                && sj == j && j <= n,
            None => spec_parse_time(s@, i as int) is None,
        },
{
    match p_ndigits_range(s, n, i, 2, 0, 24) {
        Some((h, j0)) => {
            let j1 = p_opt_colon(s, n, j0);
            match p_ndigits_range(s, n, j1, 2, 0, 59) {
                Some((mi, j2)) => {
                    let jc = p_opt_colon(s, n, j2);
                    let (sec, j3): (u32, usize) = match p_ndigits_range(s, n, jc, 2, 0, 60) {
                        Some((v, k)) => (v, k),
                        None => (0, j2),
                    };
                    let (ms, j4): (u16, usize) = if j3 < n && at_fraction_mark(s, n, j3) {
                        p_fraction(s, n, j3 + 1)
                    } else {
                        (0, j3)
                    };
                    let ((tzh, tzm), j5): ((i32, i32), usize) = match p_timezone(s, n, j4) {
                        Some((z, k)) => (z, k),
                        None => ((0, 0), j4),
                    };
                    Some(
                        (
                            IsoDateTime {
                                date: IsoDate::Ordinal { y: 0, ddd: 1 },
                                hour: h as u8,
                                minute: mi as u8,
                                second: sec as u8,
                                millisecond: ms,
                                tz_offset_hours: tzh,
                                tz_offset_minutes: tzm,
                            },
                            j5,
                        ),
                    )
                },
                None => None,
            }
        },
        None => None,
    }
}

/// Parses an ISO-8601 datetime; input after the time is ignored, as
/// the grammar's convenience entry point ignores it.
pub fn parse_iso_datetime(s: &str) -> (r: Option<IsoDateTime>)
    ensures
        match r {
            Some(dt) => spec_parse_datetime(s@) == Some(dt.view_spec()),
            None => spec_parse_datetime(s@) is None,
        },
{
    let n = s.unicode_len();
    match p_date(s, n, 0) {
        Some((date, i)) => {
            if i < n && s.get_char(i) == 'T' {
                match p_time(s, n, i + 1) {
                    Some((t, _)) => Some(
                        IsoDateTime {
                            date,
                            hour: t.hour,
                            minute: t.minute,
                            second: t.second,
                            millisecond: t.millisecond,
                            tz_offset_hours: t.tz_offset_hours,
                            tz_offset_minutes: t.tz_offset_minutes,
                        },
                    ),
                    None => None,
                }
            } else {
                None
            }
        },
        None => None,
    }
}


/// The length of year `y`, executable form.
fn year_len(y: i64) -> (r: u16)
    requires
        -500_000_000_000 <= y <= 500_000_000_000,
    ensures
        r == spec_year_len(y as int),
{
    if is_leap(y) {
        366
    } else {
        365
    }
}

/// The ISO weekday (Monday = 1) of a day number.
fn iso_weekday_of(n: i64) -> (r: u8)
    requires
        -300_000_000_000_000 <= n <= 300_000_000_000_000,
    ensures
        r == spec_iso_weekday_of(n as int),
        1 <= r <= 7,
{
    (mod_eu(n + 3, 7) + 1) as u8
}

/// The day number a parsed date names, when it is a real date.
fn date_days(date: &IsoDate) -> (r: Option<i64>)
    ensures
        match r {
            Some(v) => spec_date_days(date.view_spec()) == Some(v as int),
            None => spec_date_days(date.view_spec()) is None,
        },
{
    match date {
        IsoDate::Ymd { y, m, d } => {
            let yy = *y as i64;
            if 1 <= *m && *m <= 12 && 1 <= *d && *d <= days_in_month(yy, *m) {
                proof {
                    lemma_days_to_year_closed(yy as int);
                    lemma_month_prefix_bounds(yy as int, *m as int);
                }
                Some(days_from_civil(yy, *m, *d))
            } else {
                None
            }
        },
        IsoDate::Ordinal { y, ddd } => {
            let yy = *y as i64;
            if 1 <= *ddd && *ddd <= year_len(yy) {
                proof {
                    lemma_days_to_year_closed(yy as int);
                }
                Some(days_to_year(yy) + (*ddd as i64 - 1))
            } else {
                None
            }
        },
        IsoDate::Week { y, w, d } => {
            let yy = *y as i64;
            proof {
                lemma_days_to_year_closed(yy as int);
            }
            let jan1 = days_to_year(yy);
            let wd1 = iso_weekday_of(jan1);
            let weeks: u8 = if wd1 == 4 || (is_leap(yy) && wd1 == 3) {
                53
            } else {
                52
            };
            if 1 <= *w && *w <= weeks && 1 <= *d && *d <= 7 {
                let jan4 = jan1 + 3;
                let wd4 = iso_weekday_of(jan4);
                let w1m = jan4 - (wd4 as i64 - 1);
                Some(w1m + (*w as i64 - 1) * 7 + (*d as i64 - 1))
            } else {
                None
            }
        },
    }
}

/// The UTC instant and offset a parsed datetime names.
fn instant_of(dt: &IsoDateTime) -> (r: Option<(i64, i64)>)
    ensures
        match r {
            Some((t, off)) => spec_instant_of(dt.view_spec()) == Some((t as int, off as int)),
            None => spec_instant_of(dt.view_spec()) is None,
        },
{
    let off: i64 = dt.tz_offset_hours as i64 * 3600 + dt.tz_offset_minutes as i64 * 60;
    match date_days(&dt.date) {
        Some(days) => {
            if dt.hour <= 23 && dt.second <= 59 && -86400 < off && off < 86400 {
                proof {
                    lemma_date_days_bounded(dt.view_spec().date);
                }
                Some(
                    (
                        days * 86400 + dt.hour as i64 * 3600 + dt.minute as i64 * 60
                            + dt.second as i64 - off,
                        off,
                    ),
                )
            } else {
                None
            }
        },
        None => None,
    }
}

/// The year a parsed date names.
pub open spec fn spec_date_y(date: SpecDate) -> int {
    match date {
        SpecDate::Ymd { y, .. } => y,
        SpecDate::Week { y, .. } => y,
        SpecDate::Ord { y, .. } => y,
    }
}

/// Any day number a parsed date can name stays far inside `i64`.
proof fn lemma_date_days_bounded(date: SpecDate)
    requires
        -3_000_000_000 <= spec_date_y(date) <= 3_000_000_000,
    ensures
        match spec_date_days(date) {
            Some(v) => -3_000_000_000_000 <= v <= 3_000_000_000_000,
            None => true,
        },
{
    match date {
        SpecDate::Ymd { y, m, d } => {
            if spec_valid_ymd(y, m, d) {
                lemma_days_to_year_bounded(y);
                lemma_month_prefix_bounds(y, m);
                lemma_month_prefix_total(y);
            }
        },
        SpecDate::Ord { y, ddd } => {
            if 1 <= ddd <= spec_year_len(y) {
                lemma_days_to_year_bounded(y);
            }
        },
        SpecDate::Week { y, w, d } => {
            lemma_days_to_year_bounded(y);
            lemma_mod_bound(spec_days_to_year(y) + 3 + 3, 7);
            lemma_mod_bound(spec_days_to_year(y) + 3, 7);
        },
    }
}

/// A day count for a year an `i32` can hold stays far inside `i64`.
proof fn lemma_days_to_year_bounded(y: int)
    requires
        -3_000_000_000 <= y <= 3_000_000_000,
    ensures
        -2_000_000_000_000 <= spec_days_to_year(y) <= 2_000_000_000_000,
{
    lemma_days_to_year_closed(y);
    lemma_div_euclid_in_range(y + 3, 4);
    lemma_div_euclid_in_range(y + 99, 100);
    lemma_div_euclid_in_range(y + 399, 400);
}

/// Parses an ISO-8601 datetime and reports the UTC instant it names,
/// in seconds since the Unix epoch, milliseconds dropped.
pub fn timestamp(datestr: &str) -> (r: Option<i64>)
    ensures
        match r {
            Some(t) => spec_timestamp(datestr@) == Some(t as int),
            None => spec_timestamp(datestr@) is None,
        },
{
    match timestamp_offset(datestr) {
        Some((t, _)) => Some(t),
        None => None,
    }
}

/// Parses an ISO-8601 datetime and reports the UTC instant it names
/// together with its explicit UTC offset; a zero offset is reported
/// as no offset at all.
pub fn timestamp_offset(datestr: &str) -> (r: Option<(i64, Option<i64>)>)
    ensures
        match r {
            Some((t, off)) => spec_timestamp_offset(datestr@) == Some(
                (
                    t as int,
                    match off {
                        Some(o) => Some(o as int),
                        None => None::<int>,
                    },
                ),
            ),
            None => spec_timestamp_offset(datestr@) is None,
        },
{
    match parse_iso_datetime(datestr) {
        Some(dt) => match instant_of(&dt) {
            Some((t, off)) => {
                if off != 0 {
                    Some((t, Some(off)))
                } else {
                    Some((t, None))
                }
            },
            None => None,
        },
        None => None,
    }
}


/// Two decimal digits, zero-padded.
pub open spec fn spec_pad2(v: int) -> Seq<char>
    recommends
        0 <= v < 100,
{
    seq![
        crate::strutil::spec_digit_char(v / 10),
        crate::strutil::spec_digit_char(v % 10),
    ]
}

/// Four decimal digits, zero-padded.
pub open spec fn spec_pad4(v: int) -> Seq<char>
    recommends
        0 <= v < 10000,
{
    spec_pad2(v / 100) + spec_pad2(v % 100)
}

/// The year part: four padded digits for 0..=9999; otherwise a sign
/// and the shortest form, still zero-padded to four digits when it
/// fits.
pub open spec fn spec_year_chars(y: int) -> Seq<char> {
    if 0 <= y <= 9999 {
        spec_pad4(y)
    } else if y < 0 {
        if -y <= 9999 {
            seq!['-'] + spec_pad4(-y)
        } else {
            seq!['-'] + crate::strutil::spec_fmt_uint(-y)
        }
    } else {
        seq!['+'] + crate::strutil::spec_fmt_uint(y)
    }
}

/// The offset part: a sign, hours, a colon, and minutes; offset
/// seconds below a minute are not representable and are dropped.
pub open spec fn spec_offset_chars(off: int) -> Seq<char> {
    let a = if off < 0 {
        -off
    } else {
        off
    };
    seq![
        if off < 0 {
            '-'
        } else {
            '+'
        },
    ] + spec_pad2(a / 3600) + seq![':'] + spec_pad2((a % 3600) / 60)
}

/// The RFC-3339 rendering of a civil time at an offset.
pub open spec fn spec_render_rfc3339(
    y: int,
    m: int,
    d: int,
    h: int,
    mi: int,
    sec: int,
    off: int,
) -> Seq<char> {
    spec_year_chars(y) + seq!['-'] + spec_pad2(m) + seq!['-'] + spec_pad2(d) + seq!['T']
        + spec_pad2(h) + seq![':'] + spec_pad2(mi) + seq![':'] + spec_pad2(sec)
        + spec_offset_chars(off)
}

/// Appends two padded digits.
fn push_pad2(out: &mut Vec<char>, v: u8)
    requires
        v < 100,
    ensures
        final(out)@ == old(out)@ + spec_pad2(v as int),
{
    out.push((48 + v / 10) as char);
    out.push((48 + v % 10) as char);
    proof {
        assert(out@ =~= old(out)@ + spec_pad2(v as int));
    }
}

/// Appends four padded digits.
fn push_pad4(out: &mut Vec<char>, v: u16)
    requires
        v < 10000,
    ensures
        final(out)@ == old(out)@ + spec_pad4(v as int),
{
    push_pad2(out, (v / 100) as u8);
    push_pad2(out, (v % 100) as u8);
    proof {
        assert(out@ =~= old(out)@ + spec_pad4(v as int));
    }
}

/// Renders a UTC instant at a fixed offset as RFC-3339 text: the
/// wall-clock time at that offset, then the offset itself. The result
/// renders the unique civil date whose day number is that of
/// `t + off`; the witnesses below pin it down.
#[verifier::rlimit(100)]
pub fn format_timestamp(t: i64, off: i64) -> (r: String)
    requires
        -8_000_000_000_000_000 <= t <= 8_000_000_000_000_000,
        -86400 < off < 86400,
    ensures
        exists|y: int, m: int, d: int|
            {
                &&& spec_valid_ymd(y, m, d)
                &&& #[trigger] spec_days_from_civil(y, m, d) == (t + off) / 86400
                &&& r@ == spec_render_rfc3339(
                    y,
                    m,
                    d,
                    ((t + off) % 86400) / 3600,
                    (((t + off) % 86400) % 3600) / 60,
                    ((t + off) % 86400) % 60,
                    off as int,
                )
            },
{
    let loc: i64 = t + off;
    let days = div_eu(loc, 86400);
    let sod = mod_eu(loc, 86400);
    let (y, m, d) = civil_from_days(days);
    let h = sod / 3600;
    let rem = sod % 3600;
    let mi = rem / 60;
    let sec = rem % 60;
    proof {
        lemma_fundamental_div_mod(sod as int, 3600);
        lemma_fundamental_div_mod(rem as int, 60);
        assert(3600 == 60 * 60);
        vstd::arithmetic::div_mod::lemma_mod_mod(sod as int, 60, 60);
    }
    let mut out: Vec<char> = Vec::new();
    if 0 <= y && y <= 9999 {
        push_pad4(&mut out, y as u16);
    } else if y < 0 {
        out.push('-');
        let a = -y;
        if a <= 9999 {
            push_pad4(&mut out, a as u16);
        } else {
            let mut digits = crate::strutil::fmt_u64(a as u64);
            out.append(&mut digits);
        }
    } else {
        out.push('+');
        let mut digits = crate::strutil::fmt_u64(y as u64);
        out.append(&mut digits);
    }
    proof {
        assert(out@ =~= spec_year_chars(y as int));
    }
    out.push('-');
    push_pad2(&mut out, m);
    out.push('-');
    push_pad2(&mut out, d);
    out.push('T');
    push_pad2(&mut out, h as u8);
    out.push(':');
    push_pad2(&mut out, mi as u8);
    out.push(':');
    push_pad2(&mut out, sec as u8);
    let a: i64 = if off < 0 {
        -off
    } else {
        off
    };
    out.push(
        if off < 0 {
            '-'
        } else {
            '+'
        },
    );
    push_pad2(&mut out, (a / 3600) as u8);
    out.push(':');
    push_pad2(&mut out, ((a % 3600) / 60) as u8);
    proof {
        assert(out@ =~= spec_render_rfc3339(
            y as int,
            m as int,
            d as int,
            ((t + off) % 86400) / 3600,
            (((t + off) % 86400) % 3600) / 60,
            ((t + off) % 86400) % 60,
            off as int,
        ));
        assert(spec_valid_ymd(y as int, m as int, d as int) && spec_days_from_civil(
            y as int,
            m as int,
            d as int,
        ) == (t + off) / 86400);
    }
    crate::strutil::string_from_chars(&out)
}


/// The value of two digit runs laid end to end.
pub proof fn lemma_digits_val_concat(a: Seq<char>, b: Seq<char>)
    ensures
        spec_digits_val(a + b) == spec_digits_val(a) * spec_pow10(b.len() as int)
            + spec_digits_val(b),
    decreases b.len(),
{
    if b.len() == 0 {
        assert(a + b =~= a);
        assert(spec_pow10(0) == 1);
        lemma_mul_basics(spec_digits_val(a));
    } else {
        assert((a + b).drop_last() =~= a + b.drop_last());
        assert((a + b).len() > 0);
        assert((a + b).last() == b.last());
        lemma_digits_val_concat(a, b.drop_last());
        let va = spec_digits_val(a);
        let k = b.len() - 1;
        assert(spec_pow10(k + 1) == 10 * spec_pow10(k));
        assert((va * spec_pow10(k)) * 10 == va * (spec_pow10(k) * 10)) by {
            lemma_mul_is_associative(va, spec_pow10(k), 10);
        }
        assert(spec_pow10(k) * 10 == 10 * spec_pow10(k)) by {
            lemma_mul_is_commutative(spec_pow10(k), 10);
        }
        assert(spec_digits_val(b) == spec_digits_val(b.drop_last()) * 10 + (b.last() as int
            - 48));
    }
}

/// A digit character is a digit and carries its value.
pub proof fn lemma_digit_char_facts(v: int)
    requires
        0 <= v <= 9,
    ensures
        spec_is_digit(crate::strutil::spec_digit_char(v)),
        crate::strutil::spec_digit_char(v) as int == 48 + v,
{
}

/// Two padded digits read back as their value.
pub proof fn lemma_pad2_val(v: int)
    requires
        0 <= v < 100,
    ensures
        spec_pad2(v).len() == 2,
        crate::strutil::spec_all_digits(spec_pad2(v)),
        spec_digits_val(spec_pad2(v)) == v,
{
    let s = spec_pad2(v);
    let c1 = crate::strutil::spec_digit_char(v / 10);
    let c0 = crate::strutil::spec_digit_char(v % 10);
    lemma_digit_char_facts(v / 10);
    lemma_digit_char_facts(v % 10);
    assert(s[0] == c1 && s[1] == c0);
    assert forall|i: int| 0 <= i < s.len() implies spec_is_digit(#[trigger] s[i]) by {
        if i == 0 {
            assert(spec_is_digit(c1));
        } else {
            assert(i == 1);
            assert(spec_is_digit(c0));
        }
    }
    let s1 = seq![c1];
    assert(s.drop_last() =~= s1);
    assert(s1.drop_last() =~= Seq::<char>::empty());
    assert(spec_digits_val(Seq::<char>::empty()) == 0);
    assert(spec_digits_val(s1) == 0 * 10 + (c1 as int - 48));
    assert(spec_digits_val(s) == spec_digits_val(s1) * 10 + (c0 as int - 48));
    lemma_fundamental_div_mod(v, 10);
}

/// Four padded digits read back as their value.
pub proof fn lemma_pad4_val(v: int)
    requires
        0 <= v < 10000,
    ensures
        spec_pad4(v).len() == 4,
        crate::strutil::spec_all_digits(spec_pad4(v)),
        spec_digits_val(spec_pad4(v)) == v,
{
    lemma_pad2_val(v / 100);
    lemma_pad2_val(v % 100);
    lemma_digits_val_concat(spec_pad2(v / 100), spec_pad2(v % 100));
    assert(spec_pow10(2) == 100) by {
        reveal_with_fuel(spec_pow10, 3);
    }
    lemma_fundamental_div_mod(v, 100);
    assert(forall|i: int|
        0 <= i < 4 ==> spec_is_digit(#[trigger] spec_pad4(v)[i]));
}

/// Where each part of a four-digit-year rendering sits.
#[verifier::rlimit(100)]
proof fn lemma_render_structure(y: int, m: int, d: int, h: int, mi: int, sec: int, off: int)
    requires
        0 <= y <= 9999,
        0 <= m < 100,
        0 <= d < 100,
        0 <= h < 100,
        0 <= mi < 100,
        0 <= sec < 100,
        -86400 < off < 86400,
    ensures
        ({
            let s = spec_render_rfc3339(y, m, d, h, mi, sec, off);
            let a = if off < 0 {
                -off
            } else {
                off
            };
            &&& s.len() == 25
            &&& s.subrange(0, 4) == spec_pad4(y)
            &&& s[4] == '-'
            &&& s.subrange(5, 7) == spec_pad2(m)
            &&& s[7] == '-'
            &&& s.subrange(8, 10) == spec_pad2(d)
            &&& s[10] == 'T'
            &&& s.subrange(11, 13) == spec_pad2(h)
            &&& s[13] == ':'
            &&& s.subrange(14, 16) == spec_pad2(mi)
            &&& s[16] == ':'
            &&& s.subrange(17, 19) == spec_pad2(sec)
            &&& s[19] == (if off < 0 {
                '-'
            } else {
                '+'
            })
            &&& s.subrange(20, 22) == spec_pad2(a / 3600)
            &&& s[22] == ':'
            &&& s.subrange(23, 25) == spec_pad2((a % 3600) / 60)
        }),
{
    let s = spec_render_rfc3339(y, m, d, h, mi, sec, off);
    let a = if off < 0 {
        -off
    } else {
        off
    };
    assert(spec_year_chars(y) == spec_pad4(y));
    assert(spec_pad4(y).len() == 4);
    assert(s.len() == 25);
    assert(s.subrange(0, 4) =~= spec_pad4(y));
    assert(s.subrange(5, 7) =~= spec_pad2(m));
    assert(s.subrange(8, 10) =~= spec_pad2(d));
    assert(s.subrange(11, 13) =~= spec_pad2(h));
    assert(s.subrange(14, 16) =~= spec_pad2(mi));
    assert(s.subrange(17, 19) =~= spec_pad2(sec));
    assert(s.subrange(20, 22) =~= spec_pad2(a / 3600));
    assert(s.subrange(23, 25) =~= spec_pad2((a % 3600) / 60));
}


/// Date round-trip: rendering any real civil time at a whole-minute
/// offset as RFC-3339 text and parsing it back yields exactly the same
/// UTC instant and the same offset, a zero offset coming back as "no
/// offset recorded".
#[verifier::rlimit(100)]
pub proof fn lemma_rfc3339_round_trip(
    y: int,
    m: int,
    d: int,
    h: int,
    mi: int,
    sec: int,
    off: int,
)
    requires
        0 <= y <= 9999,
        spec_valid_ymd(y, m, d),
        0 <= h <= 23,
        0 <= mi <= 59,
        0 <= sec <= 59,
        -86400 < off < 86400,
        off % 60 == 0,
    ensures
        spec_timestamp_offset(spec_render_rfc3339(y, m, d, h, mi, sec, off)) == Some(
            (
                spec_days_from_civil(y, m, d) * 86400 + h * 3600 + mi * 60 + sec - off,
                if off != 0 {
                    Some(off)
                } else {
                    None::<int>
                },
            ),
        ),
{
    let s = spec_render_rfc3339(y, m, d, h, mi, sec, off);
    let a = if off < 0 {
        -off
    } else {
        off
    };
    lemma_render_structure(y, m, d, h, mi, sec, off);
    lemma_pad4_val(y);
    lemma_pad2_val(m);
    lemma_pad2_val(d);
    lemma_pad2_val(h);
    lemma_pad2_val(mi);
    lemma_pad2_val(sec);
    lemma_digit_char_facts(y / 1000 % 10);

    // the offset in whole hours and minutes
    lemma_fundamental_div_mod(a, 3600);
    lemma_mod_bound(a, 3600);
    let oh = a / 3600;
    let om = (a % 3600) / 60;
    assert(0 <= oh <= 23) by {
        if oh >= 24 {
            assert(3600 * oh >= 3600 * 24) by {
                lemma_mul_inequality(24, oh, 3600);
                lemma_mul_is_commutative(24, 3600);
                lemma_mul_is_commutative(oh, 3600);
            }
        }
        if oh < 0 {
            lemma_div_euclid_in_range(a, 3600);
        }
    }
    lemma_fundamental_div_mod(a % 3600, 60);
    lemma_mod_bound(a % 3600, 60);
    assert(0 <= om <= 59) by {
        lemma_div_euclid_in_range(a % 3600, 60);
        if om >= 60 {
            assert(60 * om >= 60 * 60) by {
                lemma_mul_inequality(60, om, 60);
                lemma_mul_is_commutative(60, 60);
                lemma_mul_is_commutative(om, 60);
            }
        }
    }
    lemma_pad2_val(oh);
    lemma_pad2_val(om);
    assert((a % 3600) % 60 == a % 60) by {
        assert(3600 == 60 * 60);
        vstd::arithmetic::div_mod::lemma_mod_mod(a, 60, 60);
    }
    assert(a % 60 == 0) by {
        if off < 0 {
            lemma_fundamental_div_mod(off, 60);
            assert(off == 60 * (off / 60));
            assert(-off == (-(off / 60)) * 60 + 0) by {
                lemma_mul_unary_negation(off / 60, 60);
                lemma_mul_is_commutative(off / 60, 60);
            }
            lemma_fundamental_div_mod_converse(-off, 60, -(off / 60), 0);
        }
    }
    assert(a == 3600 * oh + 60 * om);

    // the date part parses as a calendar date
    assert(s[0] == spec_pad4(y)[0]);
    assert(spec_is_digit(s[0]));
    assert(s[0] != '-' && s[0] != '+') by {
        assert('-' as int == 45 && '+' as int == 43);
    }
    assert(spec_opt_sign(s, 0) == (1int, 0int));
    assert(spec_ndigits(s, 0, 4) == Some((y, 4int))) by {
        assert(s.subrange(0, 4) == spec_pad4(y));
    }
    assert(spec_date_year(s, 0) == Some((y, 4int)));
    assert(spec_opt_dash(s, 4) == 5);
    assert(spec_ndigits(s, 5, 2) == Some((m, 7int))) by {
        assert(s.subrange(5, 7) == spec_pad2(m));
    }
    assert(spec_ndigits_range(s, 5, 2, 1, 12) == Some((m, 7int)));
    assert(spec_opt_dash(s, 7) == 8);
    assert(spec_ndigits(s, 8, 2) == Some((d, 10int))) by {
        assert(s.subrange(8, 10) == spec_pad2(d));
    }
    assert(1 <= d <= 31);
    assert(spec_ndigits_range(s, 8, 2, 1, 31) == Some((d, 10int)));
    assert(spec_date_ymd(s, 0) == Some((SpecDate::Ymd { y, m, d }, 10int)));
    assert(spec_parse_date(s, 0) == Some((SpecDate::Ymd { y, m, d }, 10int)));
    assert(s[10] == 'T');

    // the time part
    assert(spec_ndigits(s, 11, 2) == Some((h, 13int))) by {
        assert(s.subrange(11, 13) == spec_pad2(h));
    }
    assert(spec_ndigits_range(s, 11, 2, 0, 24) == Some((h, 13int)));
    assert(spec_opt_colon(s, 13) == 14);
    assert(spec_ndigits(s, 14, 2) == Some((mi, 16int))) by {
        assert(s.subrange(14, 16) == spec_pad2(mi));
    }
    assert(spec_ndigits_range(s, 14, 2, 0, 59) == Some((mi, 16int)));
    assert(spec_opt_colon(s, 16) == 17);
    assert(spec_ndigits(s, 17, 2) == Some((sec, 19int))) by {
        assert(s.subrange(17, 19) == spec_pad2(sec));
    }
    assert(spec_ndigits_range(s, 17, 2, 0, 60) == Some((sec, 19int)));

    // no fraction: position 19 holds the offset sign
    assert(s[19] == (if off < 0 {
        '-'
    } else {
        '+'
    }));
    assert(s[19] != '.' && s[19] != ',') by {
        assert('.' as int == 46 && ',' as int == 44 && '-' as int == 45 && '+' as int == 43);
    }

    // the zone
    assert(s[19] == '-' || s[19] == '+');
    assert(spec_ndigits(s, 20, 2) == Some((oh, 22int))) by {
        assert(s.subrange(20, 22) == spec_pad2(oh));
    }
    assert(spec_ndigits_range(s, 20, 2, 0, 24) == Some((oh, 22int)));
    assert(spec_opt_colon(s, 22) == 23);
    assert(spec_ndigits(s, 23, 2) == Some((om, 25int))) by {
        assert(s.subrange(23, 25) == spec_pad2(om));
    }
    assert(spec_ndigits_range(s, 23, 2, 0, 59) == Some((om, 25int)));
    let tzh = if off < 0 {
        -oh
    } else {
        oh
    };
    let tzm = if off < 0 {
        -om
    } else {
        om
    };
    assert(spec_timezone(s, 19) == Some(((tzh, tzm), 25int))) by {
        if off < 0 {
            assert(s[19] == '-');
        } else {
            assert(s[19] != '-') by {
                assert('-' as int == 45 && '+' as int == 43);
            }
        }
    }

    let dt = SpecDateTime {
        date: SpecDate::Ymd { y, m, d },
        hour: h,
        minute: mi,
        second: sec,
        ms: 0,
        tzh: tzh,
        tzm: tzm,
    };
    assert(spec_parse_datetime(s) == Some(dt)) by {
        assert(spec_parse_time(s, 11) matches Some((t, j)) && j == 25 && t.hour == h && t.minute
            == mi && t.second == sec && t.ms == 0 && t.tzh == tzh && t.tzm == tzm);
    }

    // the instant
    assert(tzh * 3600 + tzm * 60 == off);
    assert(spec_date_days(dt.date) == Some(spec_days_from_civil(y, m, d)));
    assert(spec_instant_of(dt) == Some(
        (spec_days_from_civil(y, m, d) * 86400 + h * 3600 + mi * 60 + sec - off, off),
    ));
}


/// The day count never shrinks as years advance.
pub proof fn lemma_days_to_year_le(a: int, b: int)
    requires
        a <= b,
    ensures
        spec_days_to_year(a) <= spec_days_to_year(b),
    decreases b - a,
{
    if a < b {
        lemma_days_to_year_le(a, b - 1);
        lemma_days_to_year_succ(b - 1);
    }
}

/// A real date whose day number lies within the four-digit-year era
/// has a four-digit year.
pub proof fn lemma_year_of_day_range(y: int, m: int, d: int)
    requires
        spec_valid_ymd(y, m, d),
        -719528 <= spec_days_from_civil(y, m, d) <= 2932896,
    ensures
        0 <= y <= 9999,
{
    lemma_month_prefix_bounds(y, m);
    lemma_month_prefix_total(y);
    lemma_days_to_year_succ(y);
    assert(spec_days_to_year(0) == -719528) by {
        lemma_days_to_year_closed(0);
        lemma_fundamental_div_mod_converse(3, 4, 0, 3);
        lemma_fundamental_div_mod_converse(99, 100, 0, 99);
        lemma_fundamental_div_mod_converse(399, 400, 0, 399);
    }
    assert(spec_days_to_year(10000) == 2932897) by {
        lemma_days_to_year_closed(10000);
        lemma_fundamental_div_mod_converse(10003, 4, 2500, 3);
        lemma_fundamental_div_mod_converse(10099, 100, 100, 99);
        lemma_fundamental_div_mod_converse(10399, 400, 25, 399);
    }
    let n = spec_days_from_civil(y, m, d);
    assert(spec_days_to_year(y) <= n);
    assert(n < spec_days_to_year(y + 1));
    if y < 0 {
        lemma_days_to_year_le(y + 1, 0);
        assert(false);
    }
    if y > 9999 {
        lemma_days_to_year_le(10000, y);
        assert(false);
    }
}

} // verus!
