//! The proleptic Gregorian calendar, counted in days from 1 January 1970.
use vstd::prelude::*;

verus! {

/// Years divisible by four are leap years, except centuries not divisible by 400.
pub open spec fn is_leap_year(year: int) -> bool {
    year % 4 == 0 && (year % 100 != 0 || year % 400 == 0)
}

/// The number of days of a month (1 to 12) of a year.
pub open spec fn days_in_month(year: int, month: int) -> int {
    if month == 2 {
        if is_leap_year(year) {
            29
        } else {
            28
        }
    } else if month == 4 || month == 6 || month == 9 || month == 11 {
        30
    } else {
        31
    }
}

/// The days of the months of `year` that come before `month`.
pub open spec fn days_before_month(year: int, month: int) -> int
    decreases month,
{
    if month <= 1 {
        0
    } else {
        days_before_month(year, month - 1) + days_in_month(year, month - 1)
    }
}

/// The number of leap years from year 1 up to `year`, not included; below year 1
/// the number of leap years from `year` up to year 1, negated.
pub open spec fn leap_years_before(year: int) -> int {
    (year - 1) / 4 - (year - 1) / 100 + (year - 1) / 400
}

/// The number of the day `day` of `month` of `year`, 1 January 1970 being day 0.
pub open spec fn epoch_day(year: int, month: int, day: int) -> int {
    365 * (year - 1970) + leap_years_before(year) - leap_years_before(1970) + days_before_month(year, month)
        + day - 1
}

/// `month` and `day` name a day of `year`.
pub open spec fn is_calendar_date(year: int, month: int, day: int) -> bool {
    1 <= month <= 12 && 1 <= day <= days_in_month(year, month)
}

/// The number of days of `year`.
pub open spec fn days_in_year(year: int) -> int {
    if is_leap_year(year) {
        366
    } else {
        365
    }
}

proof fn lemma_step_count(y: int, c: int)
    requires
        c > 0,
    ensures
        y / c - (y - 1) / c == (if y % c == 0 { 1int } else { 0int }),
{
    vstd::arithmetic::div_mod::lemma_fundamental_div_mod(y, c);
    vstd::arithmetic::div_mod::lemma_fundamental_div_mod(y - 1, c);
    vstd::arithmetic::div_mod::lemma_mod_bound(y, c);
    vstd::arithmetic::div_mod::lemma_mod_bound(y - 1, c);
    let q1 = y / c;
    let q2 = (y - 1) / c;
    let r1 = y % c;
    let r2 = (y - 1) % c;
    assert(q1 - q2 == (if r1 == 0 { 1int } else { 0int })) by (nonlinear_arith)
        requires
            y == c * q1 + r1,
            y - 1 == c * q2 + r2,
            0 <= r1 < c,
            0 <= r2 < c,
    {
        if q1 >= q2 + 2 {
            assert(c * q1 >= c * q2 + 2 * c) by (nonlinear_arith)
                requires
                    q1 >= q2 + 2,
                    c > 0,
            ;
        } else if q1 <= q2 - 1 {
            assert(c * q1 <= c * q2 - c) by (nonlinear_arith)
                requires
                    q1 <= q2 - 1,
                    c > 0,
            ;
        } else if q1 == q2 + 1 {
            assert(c * q1 == c * q2 + c) by (nonlinear_arith)
                requires
                    q1 == q2 + 1,
            ;
        }
    }
}

/// A year begins `days_in_year` days after the one before it begins.
proof fn lemma_next_year_start(year: int)
    ensures
        epoch_day(year + 1, 1, 1) == epoch_day(year, 1, 1) + days_in_year(year),
{
    lemma_step_count(year, 4);
    lemma_step_count(year, 100);
    lemma_step_count(year, 400);
    assert(is_leap_year(year) <==> (year % 4 == 0 && (year % 100 != 0 || year % 400 == 0)));
    if year % 100 == 0 {
        vstd::arithmetic::div_mod::lemma_mod_mod(year, 4, 25);
        assert(year % 4 == 0);
    }
    if year % 400 == 0 {
        vstd::arithmetic::div_mod::lemma_mod_mod(year, 100, 4);
        assert(year % 100 == 0);
    }
}

/// The months before a later month hold at least the days of the months before
/// the earlier one and of that month itself.
proof fn lemma_days_before_month_grow(year: int, m1: int, m2: int)
    requires
        1 <= m1 < m2,
    ensures
        days_before_month(year, m2) >= days_before_month(year, m1) + days_in_month(year, m1),
    decreases m2 - m1,
{
    if m2 > m1 + 1 {
        lemma_days_before_month_grow(year, m1, m2 - 1);
    }
}

/// The twelve months make up the year.
proof fn lemma_months_fill_year(year: int)
    ensures
        days_before_month(year, 13) == days_in_year(year),
{
    reveal_with_fuel(days_before_month, 13);
}

/// A later year begins no earlier than the end of an earlier one.
proof fn lemma_later_year_start(y1: int, y2: int)
    requires
        y1 < y2,
    ensures
        epoch_day(y2, 1, 1) >= epoch_day(y1 + 1, 1, 1),
    decreases y2 - y1,
{
    if y2 > y1 + 1 {
        lemma_later_year_start(y1, y2 - 1);
        lemma_next_year_start(y2 - 1);
    }
}

/// The day of a date lies in its year.
proof fn lemma_day_in_year(year: int, month: int, day: int)
    requires
        is_calendar_date(year, month, day),
    ensures
        epoch_day(year, 1, 1) <= epoch_day(year, month, day) < epoch_day(year + 1, 1, 1),
{
    lemma_next_year_start(year);
    lemma_months_fill_year(year);
    if month < 12 {
        lemma_days_before_month_grow(year, month, 13);
    }
    if month > 1 {
        lemma_days_before_month_grow(year, 1, month);
    }
}

/// Two dates with the same day number are the same date.
pub proof fn lemma_epoch_day_unique(y1: int, m1: int, d1: int, y2: int, m2: int, d2: int)
    requires
        is_calendar_date(y1, m1, d1),
        is_calendar_date(y2, m2, d2),
        epoch_day(y1, m1, d1) == epoch_day(y2, m2, d2),
    ensures
        y1 == y2 && m1 == m2 && d1 == d2,
{
    lemma_day_in_year(y1, m1, d1);
    lemma_day_in_year(y2, m2, d2);
    if y1 < y2 {
        lemma_later_year_start(y1, y2);
    }
    if y2 < y1 {
        lemma_later_year_start(y2, y1);
    }
    assert(y1 == y2);
    if m1 < m2 {
        lemma_days_before_month_grow(y1, m1, m2);
    }
    if m2 < m1 {
        lemma_days_before_month_grow(y1, m2, m1);
    }
}

} // verus!
