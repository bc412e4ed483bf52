//! Calendar arithmetic on the proleptic Gregorian calendar.
//!
//! An instant is a whole number of seconds since 1970-01-01 00:00:00 UTC.
//! The supported range runs from that epoch through 9999-12-31 23:59:59, so
//! every civil field of a supported instant renders with at most four digits.

use vstd::prelude::*;

verus! {

/// Last supported instant: 9999-12-31 23:59:59 UTC.
pub const MAX_INSTANT: i64 = 253402300799;

/// Days from the epoch to the first day of year 10000.
pub const DAYS_TO_YEAR_10000: u64 = 2932897;

pub open spec fn valid_instant(t: int) -> bool {
    0 <= t <= MAX_INSTANT
}

pub open spec fn is_leap_year(y: int) -> bool {
    (y % 4 == 0 && y % 100 != 0) || y % 400 == 0
}

pub open spec fn days_in_year(y: int) -> int {
    if is_leap_year(y) {
        366
    } else {
        365
    }
}

pub open spec fn days_in_month(y: int, m: int) -> int {
    if m == 2 {
        if is_leap_year(y) {
            29
        } else {
            28
        }
    } else if m == 4 || m == 6 || m == 9 || m == 11 {
        30
    } else {
        31
    }
}

/// Days from the epoch to the first day of year `y` (0 for years up to 1970).
pub open spec fn days_before_year(y: int) -> int
    decreases y,
{
    if y <= 1970 {
        0
    } else {
        days_before_year(y - 1) + days_in_year(y - 1)
    }
}

/// Days from the first of January of year `y` to the first day of month `m`.
pub open spec fn days_before_month(y: int, m: int) -> int
    decreases m,
{
    if m <= 1 {
        0
    } else {
        days_before_month(y, m - 1) + days_in_month(y, m - 1)
    }
}

pub open spec fn valid_civil(y: int, m: int, d: int, h: int, mi: int, s: int) -> bool {
    &&& 1970 <= y <= 9999
    &&& 1 <= m <= 12
    &&& 1 <= d <= days_in_month(y, m)
    &&& 0 <= h < 24
    &&& 0 <= mi < 60
    &&& 0 <= s < 60
}

/// Day number (days since the epoch) of the civil date `y-m-d`.
pub open spec fn day_number(y: int, m: int, d: int) -> int {
    days_before_year(y) + days_before_month(y, m) + (d - 1)
}

/// Seconds since the epoch of a civil date and time of day.
pub open spec fn instant_of_civil(y: int, m: int, d: int, h: int, mi: int, s: int) -> int {
    day_number(y, m, d) * 86400 + h * 3600 + mi * 60 + s
}

/// A calendar date with a time of day, the broken-down form of an instant.
#[derive(Clone, Copy, Debug, PartialEq, Eq, Structural)]
pub struct CivilDateTime {
    pub year: u64,
    pub month: u64,
    pub day: u64,
    pub hour: u64,
    pub minute: u64,
    pub second: u64,
}

impl CivilDateTime {
    pub open spec fn wf(self) -> bool {
        valid_civil(
            self.year as int,
            self.month as int,
            self.day as int,
            self.hour as int,
            self.minute as int,
            self.second as int,
        )
    }

    pub open spec fn instant(self) -> int {
        instant_of_civil(
            self.year as int,
            self.month as int,
            self.day as int,
            self.hour as int,
            self.minute as int,
            self.second as int,
        )
    }
}

/// Number of leap years in the range 1970 (inclusive) to `y` (exclusive),
/// in closed form.
pub open spec fn leap_years_before(y: int) -> int {
    ((y - 1) / 4 - 492) - ((y - 1) / 100 - 19) + ((y - 1) / 400 - 4)
}

/// Stepping the dividend by one raises the quotient exactly at multiples.
proof fn lemma_div_step(y: int, d: int)
    requires
        0 < d,
    ensures
        y % d == 0 ==> y / d == (y - 1) / d + 1,
        y % d != 0 ==> y / d == (y - 1) / d,
{
    vstd::arithmetic::div_mod::lemma_fundamental_div_mod(y, d);
    vstd::arithmetic::div_mod::lemma_mod_division_less_than_divisor(y, d);
    let q = y / d;
    let r = y % d;
    if r == 0 {
        assert(y - 1 == (q - 1) * d + (d - 1)) by (nonlinear_arith)
            requires
                y == d * q + r,
                r == 0,
        ;
        vstd::arithmetic::div_mod::lemma_fundamental_div_mod_converse(y - 1, d, q - 1, d - 1);
    } else {
        assert(y - 1 == q * d + (r - 1)) by (nonlinear_arith)
            requires
                y == d * q + r,
        ;
        vstd::arithmetic::div_mod::lemma_fundamental_div_mod_converse(y - 1, d, q, r - 1);
    }
}

/// The recursive year count agrees with the closed form.
#[verifier::rlimit(50)]
pub proof fn lemma_days_before_year_closed(y: int)
    requires
        1970 <= y,
    ensures
        days_before_year(y) == 365 * (y - 1970) + leap_years_before(y),
    decreases y,
{
    if y > 1970 {
        lemma_days_before_year_closed(y - 1);
        lemma_div_step(y - 1, 4);
        lemma_div_step(y - 1, 100);
        lemma_div_step(y - 1, 400);
    }
}

pub proof fn lemma_days_to_year_10000()
    ensures
        days_before_year(10000) == DAYS_TO_YEAR_10000,
{
    lemma_days_before_year_closed(10000);
}

/// Year counts are monotone: an earlier year begins no later.
pub proof fn lemma_days_before_year_monotone(y1: int, y2: int)
    requires
        y1 <= y2,
    ensures
        days_before_year(y1) <= days_before_year(y2),
    decreases y2 - y1,
{
    if y1 < y2 {
        lemma_days_before_year_monotone(y1, y2 - 1);
    }
}

/// Month counts are monotone within a year.
pub proof fn lemma_days_before_month_monotone(y: int, m1: int, m2: int)
    requires
        m1 <= m2,
    ensures
        days_before_month(y, m1) <= days_before_month(y, m2),
    decreases m2 - m1,
{
    if m1 < m2 {
        lemma_days_before_month_monotone(y, m1, m2 - 1);
    }
}

/// The twelve months of a year cover exactly the days of that year.
pub proof fn lemma_months_cover_year(y: int)
    ensures
        days_before_month(y, 13) == days_in_year(y),
{
    reveal_with_fuel(days_before_month, 13);
}

/// A valid civil date and time denotes an instant within the supported range.
pub proof fn lemma_civil_instant_in_range(y: int, m: int, d: int, h: int, mi: int, s: int)
    requires
        valid_civil(y, m, d, h, mi, s),
    ensures
        0 <= day_number(y, m, d) < DAYS_TO_YEAR_10000,
        valid_instant(instant_of_civil(y, m, d, h, mi, s)),
{
    lemma_days_before_month_monotone(y, 1, m);
    lemma_days_before_month_monotone(y, m + 1, 13);
    lemma_months_cover_year(y);
    lemma_days_before_year_monotone(1970, y);
    lemma_days_before_year_monotone(y + 1, 10000);
    lemma_days_to_year_10000();
    assert(days_before_year(y + 1) == days_before_year(y) + days_in_year(y));
    assert(day_number(y, m, d) < days_before_year(y + 1));
}

proof fn lemma_day_in_year_bounds(y: int, m: int, d: int)
    requires
        1 <= m <= 12,
        1 <= d <= days_in_month(y, m),
    ensures
        0 <= days_before_month(y, m) + (d - 1) < days_in_year(y),
{
    lemma_days_before_month_monotone(y, 1, m);
    lemma_days_before_month_monotone(y, m + 1, 13);
    lemma_months_cover_year(y);
}

/// An instant has at most one civil form: two valid civil date and times
/// that denote the same instant are equal in every field.
pub proof fn lemma_civil_instant_injective(a: CivilDateTime, b: CivilDateTime)
    requires
        a.wf(),
        b.wf(),
        a.instant() == b.instant(),
    ensures
        a == b,
{
    let t = a.instant();
    let dna = day_number(a.year as int, a.month as int, a.day as int);
    let dnb = day_number(b.year as int, b.month as int, b.day as int);
    let soda = a.hour as int * 3600 + a.minute as int * 60 + a.second as int;
    let sodb = b.hour as int * 3600 + b.minute as int * 60 + b.second as int;
    lemma_day_in_year_bounds(a.year as int, a.month as int, a.day as int);
    lemma_day_in_year_bounds(b.year as int, b.month as int, b.day as int);
    lemma_days_before_year_monotone(1970, a.year as int);
    lemma_days_before_year_monotone(1970, b.year as int);
    vstd::arithmetic::div_mod::lemma_fundamental_div_mod_converse(t, 86400, dna, soda);
    vstd::arithmetic::div_mod::lemma_fundamental_div_mod_converse(t, 86400, dnb, sodb);
    assert(dna == dnb && soda == sodb);
    vstd::arithmetic::div_mod::lemma_fundamental_div_mod_converse(
        soda,
        3600,
        a.hour as int,
        a.minute as int * 60 + a.second as int,
    );
    vstd::arithmetic::div_mod::lemma_fundamental_div_mod_converse(
        sodb,
        3600,
        b.hour as int,
        b.minute as int * 60 + b.second as int,
    );
    vstd::arithmetic::div_mod::lemma_fundamental_div_mod_converse(
        a.minute as int * 60 + a.second as int,
        60,
        a.minute as int,
        a.second as int,
    );
    vstd::arithmetic::div_mod::lemma_fundamental_div_mod_converse(
        b.minute as int * 60 + b.second as int,
        60,
        b.minute as int,
        b.second as int,
    );
    assert(a.hour == b.hour && a.minute == b.minute && a.second == b.second);
    if a.year < b.year {
        assert(days_before_year(a.year as int + 1) == days_before_year(a.year as int)
            + days_in_year(a.year as int));
        lemma_days_before_year_monotone(a.year as int + 1, b.year as int);
        assert(false);
    }
    if b.year < a.year {
        assert(days_before_year(b.year as int + 1) == days_before_year(b.year as int)
            + days_in_year(b.year as int));
        lemma_days_before_year_monotone(b.year as int + 1, a.year as int);
        assert(false);
    }
    let y = a.year as int;
    if a.month < b.month {
        assert(days_before_month(y, a.month as int + 1) == days_before_month(y, a.month as int)
            + days_in_month(y, a.month as int));
        lemma_days_before_month_monotone(y, a.month as int + 1, b.month as int);
        assert(false);
    }
    if b.month < a.month {
        assert(days_before_month(y, b.month as int + 1) == days_before_month(y, b.month as int)
            + days_in_month(y, b.month as int));
        lemma_days_before_month_monotone(y, b.month as int + 1, a.month as int);
        assert(false);
    }
}

proof fn lemma_find_year(days: int, y: int) -> (yy: int)
    requires
        1970 <= y <= 9999,
        days_before_year(y) <= days < days_before_year(10000),
    ensures
        1970 <= yy <= 9999,
        days_before_year(yy) <= days < days_before_year(yy + 1),
    decreases 10000 - y,
{
    if days < days_before_year(y + 1) {
        y
    } else {
        lemma_find_year(days, y + 1)
    }
}

proof fn lemma_find_month(y: int, rem: int, m: int) -> (mm: int)
    requires
        1 <= m <= 12,
        days_before_month(y, m) <= rem < days_in_year(y),
    ensures
        1 <= mm <= 12,
        days_before_month(y, mm) <= rem < days_before_month(y, mm + 1),
    decreases 12 - m,
{
    if rem < days_before_month(y, m + 1) {
        m
    } else {
        lemma_months_cover_year(y);
        lemma_find_month(y, rem, m + 1)
    }
}

/// Every supported instant has a civil form.
pub proof fn lemma_civil_exists(t: int) -> (c: CivilDateTime)
    requires
        valid_instant(t),
    ensures
        c.wf(),
        c.instant() == t,
{
    lemma_days_to_year_10000();
    let days = t / 86400;
    let sod = t % 86400;
    vstd::arithmetic::div_mod::lemma_fundamental_div_mod(t, 86400);
    vstd::arithmetic::div_mod::lemma_mod_division_less_than_divisor(t, 86400);
    vstd::arithmetic::div_mod::lemma_div_pos_is_pos(t, 86400);
    vstd::arithmetic::div_mod::lemma_div_is_ordered(t, MAX_INSTANT as int, 86400);
    let y = lemma_find_year(days, 1970);
    let rem = days - days_before_year(y);
    assert(days_before_year(y + 1) == days_before_year(y) + days_in_year(y));
    let m = lemma_find_month(y, rem, 1);
    assert(days_before_month(y, m + 1) == days_before_month(y, m) + days_in_month(y, m));
    let d = rem - days_before_month(y, m) + 1;
    let h = sod / 3600;
    let r1 = sod % 3600;
    let mi = r1 / 60;
    let s = r1 % 60;
    vstd::arithmetic::div_mod::lemma_fundamental_div_mod(sod, 3600);
    vstd::arithmetic::div_mod::lemma_mod_division_less_than_divisor(sod, 3600);
    vstd::arithmetic::div_mod::lemma_div_pos_is_pos(sod, 3600);
    vstd::arithmetic::div_mod::lemma_div_is_ordered(sod, 86399, 3600);
    vstd::arithmetic::div_mod::lemma_fundamental_div_mod(r1, 60);
    vstd::arithmetic::div_mod::lemma_mod_division_less_than_divisor(r1, 60);
    vstd::arithmetic::div_mod::lemma_div_pos_is_pos(r1, 60);
    vstd::arithmetic::div_mod::lemma_div_is_ordered(r1, 3599, 60);
    let c = CivilDateTime {
        year: y as u64,
        month: m as u64,
        day: d as u64,
        hour: h as u64,
        minute: mi as u64,
        second: s as u64,
    };
    c
}

/// The civil form of an instant: the unique broken-down date and time, for
/// instants in the supported range.
pub open spec fn civil_of(t: int) -> CivilDateTime {
    choose|c: CivilDateTime| c.wf() && c.instant() == t
}

/// On the supported range, `civil_of` is that civil form.
pub proof fn lemma_civil_of(t: int)
    requires
        valid_instant(t),
    ensures
        civil_of(t).wf(),
        civil_of(t).instant() == t,
{
    let c = lemma_civil_exists(t);
    assert(c.wf() && c.instant() == t);
}

pub fn is_leap_year_x(y: u64) -> (r: bool)
    ensures
        r == is_leap_year(y as int),
{
    (y % 4 == 0 && y % 100 != 0) || y % 400 == 0
}

pub fn days_in_year_x(y: u64) -> (r: u64)
    ensures
        r == days_in_year(y as int),
{
    if is_leap_year_x(y) {
        366
    } else {
        365
    }
}

pub fn days_in_month_x(y: u64, m: u64) -> (r: u64)
    ensures
        r == days_in_month(y as int, m as int),
{
    if m == 2 {
        if is_leap_year_x(y) {
            29
        } else {
            28
        }
    } else if m == 4 || m == 6 || m == 9 || m == 11 {
        30
    } else {
        31
    }
}

/// Break an instant down into its unique civil date and time.
pub fn civil_from_instant(t: i64) -> (c: CivilDateTime)
    requires
        valid_instant(t as int),
    ensures
        c.wf(),
        c.instant() == t as int,
        c == civil_of(t as int),
{
    let total: u64 = t as u64;
    let days: u64 = total / 86400;
    let sod: u64 = total % 86400;
    proof {
        lemma_days_to_year_10000();
    }
    let mut y: u64 = 1970;
    let mut rem: u64 = days;
    loop
        invariant
            1970 <= y <= 9999,
            days_before_year(y as int) + rem == days,
            days < days_before_year(10000),
        ensures
            1970 <= y <= 9999,
            days_before_year(y as int) + rem == days,
            rem < days_in_year(y as int),
        decreases 9999 - y,
    {
        let dy = days_in_year_x(y);
        if rem < dy {
            break ;
        }
        proof {
            assert(days_before_year(y as int + 1) == days_before_year(y as int) + days_in_year(
                y as int,
            ));
            if y == 9999 {
                assert(days_before_year(10000) <= days);
            }
            lemma_days_before_year_monotone(y as int + 1, 10000);
        }
        rem = rem - dy;
        y = y + 1;
    }
    let year_rem: u64 = rem;
    let mut m: u64 = 1;
    loop
        invariant
            1 <= m <= 12,
            days_before_month(y as int, m as int) + rem == year_rem,
            year_rem < days_in_year(y as int),
        ensures
            1 <= m <= 12,
            days_before_month(y as int, m as int) + rem == year_rem,
            rem < days_in_month(y as int, m as int),
        decreases 12 - m,
    {
        let dm = days_in_month_x(y, m);
        if rem < dm {
            break ;
        }
        proof {
            lemma_months_cover_year(y as int);
            if m == 12 {
                assert(days_before_month(y as int, 13) == days_before_month(y as int, 12)
                    + days_in_month(y as int, 12));
            }
            lemma_days_before_month_monotone(y as int, m as int + 1, 13);
        }
        rem = rem - dm;
        m = m + 1;
    }
    let day: u64 = rem + 1;
    let hour: u64 = sod / 3600;
    let r1: u64 = sod % 3600;
    let minute: u64 = r1 / 60;
    let second: u64 = r1 % 60;
    let c = CivilDateTime { year: y, month: m, day, hour, minute, second };
    proof {
        lemma_civil_of(t as int);
        lemma_civil_instant_injective(c, civil_of(t as int));
    }
    c
}

/// Compute the instant that a valid civil date and time denotes.
pub fn instant_from_civil(c: &CivilDateTime) -> (t: i64)
    requires
        c.wf(),
    ensures
        t as int == c.instant(),
        valid_instant(t as int),
{
    proof {
        lemma_days_to_year_10000();
    }
    let mut days: u64 = 0;
    let mut y: u64 = 1970;
    while y < c.year
        invariant
            1970 <= y <= c.year <= 9999,
            days == days_before_year(y as int),
            days <= DAYS_TO_YEAR_10000,
        decreases c.year - y,
    {
        let dy = days_in_year_x(y);
        proof {
            assert(days_before_year(y as int + 1) == days_before_year(y as int) + days_in_year(
                y as int,
            ));
            lemma_days_before_year_monotone(y as int + 1, 10000);
            lemma_days_to_year_10000();
        }
        days = days + dy;
        y = y + 1;
    }
    let mut m: u64 = 1;
    while m < c.month
        invariant
            1 <= m <= c.month <= 12,
            days == days_before_year(c.year as int) + days_before_month(c.year as int, m as int),
            days_before_year(c.year as int) <= DAYS_TO_YEAR_10000,
            days_before_month(c.year as int, m as int) <= 366,
        decreases c.month - m,
    {
        let dm = days_in_month_x(c.year, m);
        proof {
            lemma_days_before_month_monotone(c.year as int, m as int + 1, 13);
            lemma_months_cover_year(c.year as int);
        }
        days = days + dm;
        m = m + 1;
    }
    proof {
        lemma_civil_instant_in_range(
            c.year as int,
            c.month as int,
            c.day as int,
            c.hour as int,
            c.minute as int,
            c.second as int,
        );
    }
    let day_num: u64 = days + (c.day - 1);
    let t64: u64 = day_num * 86400 + c.hour * 3600 + c.minute * 60 + c.second;
    t64 as i64
}

} // verus!
