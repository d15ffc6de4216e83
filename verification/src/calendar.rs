//! The proleptic Gregorian calendar, counted in days from 1970-01-01, and the
//! date a unix timestamp falls on.
use vstd::prelude::*;

use crate::fmt::push_int;
use crate::text::push_str;

verus! {

pub open spec fn is_leap(y: int) -> bool {
    (y % 4 == 0 && y % 100 != 0) || y % 400 == 0
}

pub open spec fn month_len(y: int, m: int) -> int {
    if m == 2 {
        if is_leap(y) {
            29
        } else {
            28
        }
    } else if m == 4 || m == 6 || m == 9 || m == 11 {
        30
    } else {
        31
    }
}

pub open spec fn valid_date(y: int, m: int, d: int) -> bool {
    1 <= m <= 12 && 1 <= d <= month_len(y, m)
}

/// Leap years in `0..y` (negative when `y` is).
pub open spec fn leaps_before(y: int) -> int {
    (y + 3) / 4 - (y + 99) / 100 + (y + 399) / 400
}

/// Days of year `y` before the first of month `m`.
pub open spec fn days_before_month(y: int, m: int) -> int {
    let base: int = if m == 1 {
        0
    } else if m == 2 {
        31
    } else if m == 3 {
        59
    } else if m == 4 {
        90
    } else if m == 5 {
        120
    } else if m == 6 {
        151
    } else if m == 7 {
        181
    } else if m == 8 {
        212
    } else if m == 9 {
        243
    } else if m == 10 {
        273
    } else if m == 11 {
        304
    } else {
        334
    };
    if m > 2 && is_leap(y) {
        base + 1
    } else {
        base
    }
}

/// The number of days from 1970-01-01 to the date `y-m-d`.
pub open spec fn days_from_civil(y: int, m: int, d: int) -> int {
    365 * (y - 1970) + leaps_before(y) - leaps_before(1970) + days_before_month(y, m) + d - 1
}

// ---------------------------------------------------------------------------
// Facts about the count
// ---------------------------------------------------------------------------

/// `(q * d + r) / d == q` for `0 <= r < d`.
proof fn lemma_div_exact(x: int, d: int, q: int, r: int)
    requires
        d > 0,
        0 <= r < d,
        x == q * d + r,
    ensures
        x / d == q,
        x % d == r,
{
    vstd::arithmetic::div_mod::lemma_fundamental_div_mod_converse(x, d, q, r);
}

/// `(y + k) / d` for `0 <= k <= d`: one more than `y / d` exactly when the
/// remainder carries.
proof fn lemma_div_add(y: int, k: int, d: int)
    requires
        d > 0,
        0 <= k <= d,
    ensures
        (y + k) / d == y / d + if y % d + k >= d {
            1int
        } else {
            0int
        },
{
    let q = y / d;
    let r = y % d;
    vstd::arithmetic::div_mod::lemma_fundamental_div_mod(y, d);
    if r + k >= d {
        assert(y + k == (q + 1) * d + (r + k - d)) by (nonlinear_arith)
            requires
                y == d * q + r,
        ;
        lemma_div_exact(y + k, d, q + 1, r + k - d);
    } else {
        assert(y + k == q * d + (r + k)) by (nonlinear_arith)
            requires
                y == d * q + r,
        ;
        lemma_div_exact(y + k, d, q, r + k);
    }
}

proof fn lemma_leaps_step(y: int)
    ensures
        leaps_before(y + 1) == leaps_before(y) + if is_leap(y) {
            1int
        } else {
            0int
        },
        leaps_before(y + 1) == y / 4 - y / 100 + y / 400 + 1,
{
    lemma_div_add(y, 3, 4);
    lemma_div_add(y, 4, 4);
    lemma_div_add(y, 99, 100);
    lemma_div_add(y, 100, 100);
    lemma_div_add(y, 399, 400);
    lemma_div_add(y, 400, 400);
    vstd::arithmetic::div_mod::lemma_fundamental_div_mod(y, 4);
    vstd::arithmetic::div_mod::lemma_fundamental_div_mod(y, 100);
    vstd::arithmetic::div_mod::lemma_fundamental_div_mod(y, 400);
    if y % 400 == 0 {
        let q = y / 400;
        lemma_div_exact(y, 100, 4 * q, 0);
        lemma_div_exact(y, 4, 100 * q, 0);
    } else if y % 100 == 0 {
        let q = y / 100;
        lemma_div_exact(y, 4, 25 * q, 0);
    }
}

/// Days in the March-based year that starts in March of `yoe` (counted
/// within an era), before that year.
pub open spec fn era_base(yoe: int) -> int {
    365 * yoe + yoe / 4 - yoe / 100
}

proof fn lemma_era_shift(era: int, yoe: int)
    requires
        0 <= yoe < 400,
    ensures
        365 * (400 * era + yoe) + (400 * era + yoe) / 4 - (400 * era + yoe) / 100 + (400 * era + yoe) / 400
            == 146097 * era + era_base(yoe),
{
    let y = 400 * era + yoe;
    vstd::arithmetic::div_mod::lemma_fundamental_div_mod(yoe, 4);
    vstd::arithmetic::div_mod::lemma_fundamental_div_mod(yoe, 100);
    lemma_div_exact(y, 4, 100 * era + yoe / 4, yoe % 4);
    lemma_div_exact(y, 100, 4 * era + yoe / 100, yoe % 100);
    lemma_div_exact(y, 400, era, yoe);
}

proof fn lemma_era_base_step(yoe: int)
    requires
        0 <= yoe < 400,
    ensures
        era_base(yoe + 1) == era_base(yoe) + 365 + if (yoe + 1) % 4 == 0 && (yoe + 1) % 100 != 0 {
            1int
        } else {
            0int
        },
{
}

proof fn lemma_era_base_bounds(q: int)
    requires
        0 <= q,
    ensures
        era_base(q) <= 366 * q,
        era_base(q) >= 365 * q,
{
}

/// Days before each month of a March-based year (March is 0).
pub open spec fn march_offset(mp: int) -> int {
    if mp == 0 {
        0
    } else if mp == 1 {
        31
    } else if mp == 2 {
        61
    } else if mp == 3 {
        92
    } else if mp == 4 {
        122
    } else if mp == 5 {
        153
    } else if mp == 6 {
        184
    } else if mp == 7 {
        214
    } else if mp == 8 {
        245
    } else if mp == 9 {
        275
    } else if mp == 10 {
        306
    } else if mp == 11 {
        337
    } else {
        366
    }
}

fn march_offset_exec(mp: u128) -> (r: u128)
    requires
        mp <= 12,
    ensures
        r == march_offset(mp as int),
{
    if mp == 0 {
        0
    } else if mp == 1 {
        31
    } else if mp == 2 {
        61
    } else if mp == 3 {
        92
    } else if mp == 4 {
        122
    } else if mp == 5 {
        153
    } else if mp == 6 {
        184
    } else if mp == 7 {
        214
    } else if mp == 8 {
        245
    } else if mp == 9 {
        275
    } else if mp == 10 {
        306
    } else if mp == 11 {
        337
    } else {
        366
    }
}

/// Whether the March-based year `yoe` of an era ends with a February 29.
pub open spec fn leap_next(yoe: int) -> bool {
    (yoe + 1) % 4 == 0 && ((yoe + 1) % 100 != 0 || yoe + 1 == 400)
}

/// The March-based year of an era in which day `doe` of the era falls.
fn year_of_era(doe: u128) -> (yoe: u128)
    requires
        doe < 146097,
    ensures
        yoe <= 399,
        era_base(yoe as int) <= doe,
        doe - era_base(yoe as int) <= 364 + if leap_next(yoe as int) {
            1int
        } else {
            0int
        },
{
    let mut yoe: u128 = doe / 366;
    proof {
        lemma_era_base_bounds(yoe as int);
        assert(366 * (doe / 366) <= doe) by (nonlinear_arith);
    }
    while yoe < 399 && 365 * (yoe + 1) + (yoe + 1) / 4 - (yoe + 1) / 100 <= doe
        invariant
            yoe <= 399,
            doe < 146097,
            era_base(yoe as int) <= doe,
        decreases 399 - yoe,
    {
        yoe += 1;
    }
    proof {
        lemma_era_base_step(yoe as int);
        if yoe == 399 {
            assert(era_base(399) == 145731);
        }
    }
    yoe
}

/// The month (March is 0) and day of day `doy` of a March-based year.
fn month_of_year(doy: u128) -> (r: (u128, u128))
    requires
        doy <= 365,
    ensures
        r.0 <= 11,
        r.1 >= 1,
        doy == march_offset(r.0 as int) + r.1 - 1,
        r.0 < 11 ==> doy < march_offset(r.0 + 1),
{
    let mut mp: u128 = 0;
    while mp < 11 && march_offset_exec(mp + 1) <= doy
        invariant
            mp <= 11,
            march_offset(mp as int) <= doy,
            doy <= 365,
        decreases 11 - mp,
    {
        mp += 1;
    }
    (mp, doy - march_offset_exec(mp) + 1)
}

proof fn lemma_assemble(era: int, yoe: int, doy: int, mp: int, d: int)
    requires
        0 <= yoe <= 399,
        0 <= doy <= 364 + if leap_next(yoe) {
            1int
        } else {
            0int
        },
        0 <= mp <= 11,
        d >= 1,
        doy == march_offset(mp) + d - 1,
        mp < 11 ==> doy < march_offset(mp + 1),
    ensures
        ({
            let m = if mp < 10 {
                mp + 3
            } else {
                mp - 9
            };
            let y = if m <= 2 {
                400 * era + yoe + 1
            } else {
                400 * era + yoe
            };
            valid_date(y, m, d) && days_from_civil(y, m, d) == 146097 * era + era_base(yoe) + doy - 719468
        }),
{
    let ym = 400 * era + yoe;
    lemma_era_shift(era, yoe);
    lemma_leaps_step(ym);
    lemma_leaps_step(ym + 1);
    assert((ym + 1) % 4 == (yoe + 1) % 4) by {
        lemma_div_exact(ym + 1, 4, 100 * era + (yoe + 1) / 4, (yoe + 1) % 4);
    }
    assert((ym + 1) % 100 == (yoe + 1) % 100) by {
        lemma_div_exact(ym + 1, 100, 4 * era + (yoe + 1) / 100, (yoe + 1) % 100);
    }
    assert((ym + 1) % 400 == (yoe + 1) % 400) by {
        lemma_div_exact(ym + 1, 400, era + (yoe + 1) / 400, (yoe + 1) % 400);
    }
    assert(is_leap(ym + 1) == leap_next(yoe));
}

/// The civil date of day `days_p - 146097 * 1000000000` (counted from
/// 1970-01-01).
fn civil_from_days_offset(days_p: u128) -> (r: (i128, u128, u128))
    requires
        days_p <= 0x1_0000_0000_0000_0000_0000u128,
    ensures
        valid_date(r.0 as int, r.1 as int, r.2 as int),
        days_from_civil(r.0 as int, r.1 as int, r.2 as int) == days_p - 146097 * 1000000000,
{
    let z = days_p + 719468;
    let era_p = z / 146097;
    let doe = z % 146097;
    let ghost era: int = era_p - 1000000000;
    assert(z == 146097 * era_p + doe);
    let yoe = year_of_era(doe);
    let doy = doe - (365 * yoe + yoe / 4 - yoe / 100);
    let (mp, d) = month_of_year(doy);
    let m: u128 = if mp < 10 {
        mp + 3
    } else {
        mp - 9
    };
    let y_march: i128 = (yoe as i128) + 400 * (era_p as i128) - 400000000000;
    let y: i128 = if m <= 2 {
        y_march + 1
    } else {
        y_march
    };
    proof {
        assert(y_march == 400 * era + yoe);
        lemma_assemble(era, yoe as int, doy as int, mp as int, d as int);
    }
    (y, m, d)
}

/// The day count of January 1 of year `y`.
pub open spec fn year_start(y: int) -> int {
    days_from_civil(y, 1, 1)
}

proof fn lemma_year_len(y: int)
    ensures
        year_start(y + 1) == year_start(y) + 365 + if is_leap(y) {
            1int
        } else {
            0int
        },
{
    lemma_leaps_step(y);
}

proof fn lemma_year_start_mono(y1: int, y2: int)
    requires
        y1 <= y2,
    ensures
        year_start(y1) + 365 * (y2 - y1) <= year_start(y2),
    decreases y2 - y1,
{
    if y1 < y2 {
        lemma_year_start_mono(y1, y2 - 1);
        lemma_year_len(y2 - 1);
    }
}

/// A valid date's day count lies within its year.
proof fn lemma_within_year(y: int, m: int, d: int)
    requires
        valid_date(y, m, d),
    ensures
        year_start(y) <= days_from_civil(y, m, d) < year_start(y + 1),
{
    lemma_year_len(y);
}

/// Each day count names at most one date: `issued_on`'s date is unique.
pub proof fn lemma_days_from_civil_injective(y1: int, m1: int, d1: int, y2: int, m2: int, d2: int)
    requires
        valid_date(y1, m1, d1),
        valid_date(y2, m2, d2),
        days_from_civil(y1, m1, d1) == days_from_civil(y2, m2, d2),
    ensures
        y1 == y2 && m1 == m2 && d1 == d2,
{
    lemma_within_year(y1, m1, d1);
    lemma_within_year(y2, m2, d2);
    if y1 < y2 {
        lemma_year_start_mono(y1 + 1, y2);
    } else if y2 < y1 {
        lemma_year_start_mono(y2 + 1, y1);
    }
    assert(y1 == y2);
}

/// The date, as "YYYY-MM-DD", on which the unix timestamp `secs` falls.
pub fn issued_on(secs: i64) -> (r: String)
    ensures
        exists|y: int, m: int, d: int|
            valid_date(y, m, d) && days_from_civil(y, m, d) == secs as int / 86400 && r@
                == crate::dates::date_stamp_of(y, m, d),
{
    // Shift by a whole number of 400-year eras so everything below is
    // non-negative.
    let shifted: u128 = ((secs as i128) + 12622780800000000000i128) as u128;
    let days_p = shifted / 86400;
    assert(days_p == secs as int / 86400 + 146097 * 1000000000) by {
        lemma_div_exact(
            secs as int + 12622780800000000000,
            86400,
            secs as int / 86400 + 146097 * 1000000000,
            secs as int % 86400,
        );
    }
    let (y, m, d) = civil_from_days_offset(days_p);
    let mut s = String::new();
    push_int(&mut s, y as i64, 4);
    push_str(&mut s, "-");
    push_int(&mut s, m as i64, 2);
    push_str(&mut s, "-");
    push_int(&mut s, d as i64, 2);
    s
}

} // verus!
