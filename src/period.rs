//! Day and month arithmetic, and the first and last day of a period.
use crate::calendar::{
    ce_days, date_with_days, days_before_year, days_in_month, iso_day, iso_week1_start,
    iso_week_of, iso_weeks_in, iso_year_of, lemma_date_with_days, lemma_days_injective,
    lemma_days_order, lemma_days_range, lemma_month_end, lemma_ordinal_range, lemma_year_step,
    lemma_years_grow, max_days, min_days, valid_ymd, weekday0_of, Date, MAX_YEAR, MIN_YEAR,
};
use vstd::arithmetic::div_mod::lemma_fundamental_div_mod_converse;
use vstd::prelude::*;

verus! {

/// The date `(year, month, day)`, which the caller knows to be valid.
fn date_of(year: i32, month: u32, day: u32) -> (r: Date)
    requires
        valid_ymd(year as int, month as int, day as int),
        MIN_YEAR <= year <= MAX_YEAR,
    ensures
        r == (Date { year, month, day }),
{
    match Date::from_ymd_opt(year, month, day) {
        Some(d) => d,
        None => {
            proof {
                assert(false);
            }
            Date { year, month, day }
        },
    }
}

/// The date `days` days after `ref_date` (before it, for a negative `days`).
pub fn add_days(ref_date: &Date, days: i32) -> (r: Date)
    requires
        ref_date.wf(),
        min_days() <= ref_date.days() + days <= max_days(),
    ensures
        r.wf(),
        r.days() == ref_date.days() + days,
{
    proof {
        lemma_days_range(*ref_date);
    }
    match Date::from_num_days_from_ce_opt(ref_date.num_days_from_ce() + days) {
        Some(d) => d,
        None => {
            proof {
                assert(false);
            }
            *ref_date
        },
    }
}

/// Months since January of year 0: the month `m` of year `y` counts `12 * y + m - 1`.
pub open spec fn month_index(y: int, m: int) -> int {
    12 * y + m - 1
}

/// The date `months` months after `d`: same day of the month, cut down to the
/// last day of the target month where that month is shorter.
pub open spec fn months_later(d: Date, months: int) -> Date {
    let t = month_index(d.year as int, d.month as int) + months;
    let y = t / 12;
    let m = t % 12 + 1;
    let last = days_in_month(y, m);
    Date {
        year: y as i32,
        month: m as u32,
        day: (if (d.day as int) <= last { d.day as int } else { last }) as u32,
    }
}

/// `months` months from `d`, and the month after that, lie within the
/// supported years.
pub open spec fn months_in_range(d: Date, months: int) -> bool {
    let t = month_index(d.year as int, d.month as int) + months;
    12 * (MIN_YEAR as int) <= t < 12 * (MAX_YEAR as int) + 11
}

/// The date `months` months after `ref_date` (before it, for negative
/// `months`), with the day cut down to the end of the target month.
pub fn add_months(ref_date: &Date, months: i32) -> (r: Date)
    requires
        ref_date.wf(),
        months_in_range(*ref_date, months as int),
    ensures
        r.wf(),
        r == months_later(*ref_date, months as int),
{
    let t: i64 = ref_date.year as i64 * 12 + (ref_date.month as i64 - 1) + months as i64;
    let shifted: i64 = t - 12 * (MIN_YEAR as i64);
    let year: i32 = (shifted / 12) as i32 + MIN_YEAR;
    let month: u32 = (shifted % 12) as u32 + 1;
    proof {
        assert(year == t / 12);
        assert(month == t % 12 + 1);
    }
    let nxt_month = if month == 12 {
        date_of(year + 1, 1, 1)
    } else {
        date_of(year, month + 1, 1)
    };
    let first = date_of(year, month, 1);
    proof {
        lemma_month_end(year as int, month as int);
    }
    let max_day = nxt_month.signed_days_since(&first) as u32;
    assert(max_day == days_in_month(year as int, month as int));
    let day = ref_date.day;
    date_of(year, month, if day > max_day { max_day } else { day })
}

/// The kinds of period whose first and last day can be asked for.
#[derive(Clone, Copy, Debug, PartialEq, Eq, Structural)]
pub enum Period {
    Year,
    Semiannual,
    Quarter,
    Month,
    Week,
}

/// First month of the quarter that holds month `m`.
pub open spec fn quarter_start(m: int) -> int {
    3 * ((m - 1) / 3) + 1
}

/// Day count of the first day of the period `p` that holds `d`.
pub open spec fn period_start(d: Date, p: Period) -> int {
    let (y, m) = (d.year as int, d.month as int);
    match p {
        Period::Year => ce_days(y, 1, 1),
        Period::Semiannual => ce_days(y, if m <= 6 { 1 } else { 7 }, 1),
        Period::Quarter => ce_days(y, quarter_start(m), 1),
        Period::Month => ce_days(y, m, 1),
        Period::Week => d.days() - weekday0_of(d.days()),
    }
}

/// Day count of the last day of the period `p` that holds `d`.
pub open spec fn period_end(d: Date, p: Period) -> int {
    let (y, m) = (d.year as int, d.month as int);
    match p {
        Period::Year => ce_days(y, 12, 31),
        Period::Semiannual => if m <= 6 {
            ce_days(y, 6, 30)
        } else {
            ce_days(y, 12, 31)
        },
        Period::Quarter => ce_days(y, quarter_start(m) + 2, days_in_month(y, quarter_start(m) + 2)),
        Period::Month => ce_days(y, m, days_in_month(y, m)),
        Period::Week => d.days() - weekday0_of(d.days()) + 6,
    }
}

/// The first and last day of a date's period need a year of room on the
/// side where a week or a month may spill over.
pub open spec fn period_in_range(d: Date, p: Period) -> bool {
    match p {
        Period::Week => MIN_YEAR < d.year < MAX_YEAR,
        Period::Month => d.year < MAX_YEAR,
        _ => true,
    }
}

/// Approximate years from `d0` to `d1`, in units of `1 / 4380` of a year
/// (`4380 = 12 * 365`, so that both fractions below are whole units):
/// `(year1 - year0) + (month1 - month0) / 12 + (day1 - day0) / 365`. A year
/// counts 365 days here whether or not it is a leap year.
pub fn year_frac(d1: &Date, d0: &Date) -> (r: i64)
    requires
        d1.wf(),
        d0.wf(),
    ensures
        r == 4380 * (d1.year - d0.year) + 365 * (d1.month - d0.month) + 12 * (d1.day - d0.day),
{
    let years = d1.year as i64 - d0.year as i64;
    let months = d1.month as i64 - d0.month as i64;
    let days = d1.day as i64 - d0.day as i64;
    4380 * years + 365 * months + 12 * days
}

/// The first day of a date's period `p`, as the element-wise function that
/// the vector form applies; `None` where that day is not within range.
pub open spec fn start_fn(p: Period) -> spec_fn(Date) -> Option<Date> {
    |d: Date|
        if period_in_range(d, p) {
            Some(date_with_days(period_start(d, p)))
        } else {
            None
        }
}

/// The last day of a date's period `p`, as the element-wise function that
/// the vector form applies; `None` where that day is not within range.
pub open spec fn end_fn(p: Period) -> spec_fn(Date) -> Option<Date> {
    |d: Date|
        if period_in_range(d, p) {
            Some(date_with_days(period_end(d, p)))
        } else {
            None
        }
}

/// A date `months` months later, as the element-wise function that the
/// vector form applies; `None` where that date is not within range.
pub open spec fn months_fn(months: int) -> spec_fn(Date) -> Option<Date> {
    |d: Date|
        if months_in_range(d, months) {
            Some(months_later(d, months))
        } else {
            None
        }
}

/// Whether the first and last day of `x`'s period `p` are within range.
pub fn has_period_room(x: &Date, p: Period) -> (r: bool)
    ensures
        r == period_in_range(*x, p),
{
    match p {
        Period::Week => MIN_YEAR < x.year && x.year < MAX_YEAR,
        Period::Month => x.year < MAX_YEAR,
        _ => true,
    }
}

/// Whether the month `months` months after `x`, and the one after it, are
/// within range.
pub fn has_month_room(x: &Date, months: i32) -> (r: bool)
    ensures
        r == months_in_range(*x, months as int),
{
    let t: i64 = x.year as i64 * 12 + (x.month as i64 - 1) + months as i64;
    12 * (MIN_YEAR as i64) <= t && t < 12 * (MAX_YEAR as i64) + 11
}

/// The period named `x`: "year", "semiannual", "quarter", "month" or "week".
pub open spec fn period_named(x: Seq<char>) -> Option<Period> {
    if x == seq!['y', 'e', 'a', 'r'] {
        Some(Period::Year)
    } else if x == seq!['s', 'e', 'm', 'i', 'a', 'n', 'n', 'u', 'a', 'l'] {
        Some(Period::Semiannual)
    } else if x == seq!['q', 'u', 'a', 'r', 't', 'e', 'r'] {
        Some(Period::Quarter)
    } else if x == seq!['m', 'o', 'n', 't', 'h'] {
        Some(Period::Month)
    } else if x == seq!['w', 'e', 'e', 'k'] {
        Some(Period::Week)
    } else {
        None
    }
}

/// `x` holds exactly the characters of `name`.
fn text_is(x: &str, name: &[char]) -> (r: bool)
    ensures
        r == (x@ == name@),
{
    let n = x.unicode_len();
    if n != name.len() {
        return false;
    }
    let mut i: usize = 0;
    while i < n
        invariant
            n == x@.len() == name@.len(),
            0 <= i <= n,
            forall|j: int| 0 <= j < i ==> x@[j] == name@[j],
        decreases n - i,
    {
        if x.get_char(i) != name[i] {
            return false;
        }
        i += 1;
    }
    assert(x@ =~= name@);
    true
}

/// The period named `x`, or `None` for a name that is none of the five.
pub fn to_period(x: &str) -> (r: Option<Period>)
    ensures
        r == period_named(x@),
{
    let year = ['y', 'e', 'a', 'r'];
    let semiannual = ['s', 'e', 'm', 'i', 'a', 'n', 'n', 'u', 'a', 'l'];
    let quarter = ['q', 'u', 'a', 'r', 't', 'e', 'r'];
    let month = ['m', 'o', 'n', 't', 'h'];
    let week = ['w', 'e', 'e', 'k'];
    assert(year@ =~= seq!['y', 'e', 'a', 'r']);
    assert(semiannual@ =~= seq!['s', 'e', 'm', 'i', 'a', 'n', 'n', 'u', 'a', 'l']);
    assert(quarter@ =~= seq!['q', 'u', 'a', 'r', 't', 'e', 'r']);
    assert(month@ =~= seq!['m', 'o', 'n', 't', 'h']);
    assert(week@ =~= seq!['w', 'e', 'e', 'k']);
    if text_is(x, &year) {
        Some(Period::Year)
    } else if text_is(x, &semiannual) {
        Some(Period::Semiannual)
    } else if text_is(x, &quarter) {
        Some(Period::Quarter)
    } else if text_is(x, &month) {
        Some(Period::Month)
    } else if text_is(x, &week) {
        Some(Period::Week)
    } else {
        None
    }
}

/// Between two Mondays `s` and `e`, the Monday of the week of `n` is `s`
/// plus whole weeks, and comes before `e`.
proof fn lemma_week_within(s: int, e: int, n: int)
    requires
        s <= n < e,
        weekday0_of(s) == 0,
        weekday0_of(e) == 0,
    ensures
        0 <= (n - s) / 7 < (e - s) / 7,
        s + 7 * ((n - s) / 7) == n - weekday0_of(n),
        0 <= weekday0_of(n) < 7,
{
    let a = (s - 1) / 7;
    let b = (e - 1) / 7;
    let q = (n - s) / 7;
    let r = (n - s) % 7;
    assert(s - 1 == 7 * a);
    assert(e - 1 == 7 * b);
    assert(n - s == 7 * q + r && 0 <= r < 7);
    lemma_fundamental_div_mod_converse(n - 1, 7, a + q, r);
    lemma_fundamental_div_mod_converse(e - s, 7, b - a, 0);
}

/// ISO week 1 of every year starts on a Monday near January 1.
proof fn lemma_week1_start(y: int)
    ensures
        weekday0_of(iso_week1_start(y)) == 0,
        days_before_year(y) - 2 <= iso_week1_start(y) <= days_before_year(y) + 4,
{
    let j = ce_days(y, 1, 4);
    assert(j == days_before_year(y) + 4);
    assert((j - (j - 1) % 7 - 1) % 7 == 0);
}

/// The ISO year and week of a date (not in the first or last supported year)
/// name its week, whose days all lie within the supported years.
proof fn lemma_iso_week(d: Date)
    requires
        d.wf(),
        MIN_YEAR < d.year < MAX_YEAR,
    ensures
        ({
            let n = d.days();
            let iy = iso_year_of(n, d.year as int);
            let iw = iso_week_of(n, d.year as int);
            &&& d.year - 1 <= iy <= d.year + 1
            &&& 1 <= iw <= iso_weeks_in(iy)
            &&& iso_day(iy, iw, 0) == n - weekday0_of(n)
            &&& min_days() < n - weekday0_of(n)
            &&& n - weekday0_of(n) + 6 < max_days()
        }),
{
    let y = d.year as int;
    let n = d.days();
    let iy = iso_year_of(n, y);
    lemma_days_range(d);
    lemma_year_step(y - 1);
    lemma_year_step(y);
    lemma_year_step(y + 1);
    lemma_week1_start(y - 1);
    lemma_week1_start(y);
    lemma_week1_start(y + 1);
    lemma_week1_start(y + 2);
    lemma_ordinal_range(y, d.month as int, d.day as int);
    assert(days_before_year(y) + 1 <= n <= days_before_year(y + 1));
    let s = iso_week1_start(iy);
    let e = iso_week1_start(iy + 1);
    assert(s <= n < e);
    lemma_week_within(s, e, n);
    lemma_years_grow(MIN_YEAR as int + 1, y);
    lemma_year_step(MIN_YEAR as int);
    lemma_years_grow(y + 1, MAX_YEAR as int);
}

/// The first day of the period `p` that holds `x`.
pub fn bop(x: &Date, p: Period) -> (r: Date)
    requires
        x.wf(),
        period_in_range(*x, p),
    ensures
        r.wf(),
        r.days() == period_start(*x, p),
        r == date_with_days(period_start(*x, p)),
{
    let r = start_date(x, p);
    proof {
        lemma_date_with_days(r);
    }
    r
}

fn start_date(x: &Date, p: Period) -> (r: Date)
    requires
        x.wf(),
        period_in_range(*x, p),
    ensures
        r.wf(),
        r.days() == period_start(*x, p),
{
    match p {
        Period::Year => date_of(x.year, 1, 1),
        Period::Semiannual => {
            let month: u32 = if x.month <= 6 { 1 } else { 7 };
            date_of(x.year, month, 1)
        },
        Period::Quarter => {
            let month: u32 = if x.month <= 3 {
                1
            } else if x.month <= 6 {
                4
            } else if x.month <= 9 {
                7
            } else {
                10
            };
            date_of(x.year, month, 1)
        },
        Period::Month => date_of(x.year, x.month, 1),
        Period::Week => {
            let (year, week) = x.iso_week();
            proof {
                lemma_iso_week(*x);
            }
            match Date::from_isoywd_opt(year, week, 0) {
                Some(d) => d,
                None => {
                    proof {
                        assert(false);
                    }
                    *x
                },
            }
        },
    }
}

/// The last day of the period `p` that holds `x`.
pub fn eop(x: &Date, p: Period) -> (r: Date)
    requires
        x.wf(),
        period_in_range(*x, p),
    ensures
        r.wf(),
        r.days() == period_end(*x, p),
        r == date_with_days(period_end(*x, p)),
{
    let r = end_date(x, p);
    proof {
        lemma_date_with_days(r);
    }
    r
}

fn end_date(x: &Date, p: Period) -> (r: Date)
    requires
        x.wf(),
        period_in_range(*x, p),
    ensures
        r.wf(),
        r.days() == period_end(*x, p),
{
    match p {
        Period::Year => date_of(x.year, 12, 31),
        Period::Semiannual => if x.month <= 6 {
            date_of(x.year, 6, 30)
        } else {
            date_of(x.year, 12, 31)
        },
        Period::Quarter => if x.month <= 3 {
            date_of(x.year, 3, 31)
        } else if x.month <= 6 {
            date_of(x.year, 6, 30)
        } else if x.month <= 9 {
            date_of(x.year, 9, 30)
        } else {
            date_of(x.year, 12, 31)
        },
        Period::Month => {
            let bop = date_of(x.year, x.month, 1);
            let next = add_months(&bop, 1);
            proof {
                lemma_month_end(x.year as int, x.month as int);
                lemma_days_range(next);
                lemma_days_range(*x);
            }
            add_days(&next, -1)
        },
        Period::Week => {
            let (year, week) = x.iso_week();
            proof {
                lemma_iso_week(*x);
            }
            match Date::from_isoywd_opt(year, week, 6) {
                Some(d) => d,
                None => {
                    proof {
                        assert(false);
                    }
                    *x
                },
            }
        },
    }
}

/// Each date lies between the first and the last day of each of its
/// periods: `bop(d, p) <= d <= eop(d, p)` in the day count.
pub proof fn lemma_period_contains(d: Date, p: Period)
    requires
        d.wf(),
    ensures
        period_start(d, p) <= d.days() <= period_end(d, p),
{
    let (y, m, dd) = (d.year as int, d.month as int, d.day as int);
    match p {
        Period::Week => {},
        _ => {
            let (sm, em) = match p {
                Period::Year => (1int, 12int),
                Period::Semiannual => if m <= 6 { (1int, 6int) } else { (7int, 12int) },
                Period::Quarter => (quarter_start(m), quarter_start(m) + 2),
                _ => (m, m),
            };
            let last = days_in_month(y, em);
            if sm < m || 1 < dd {
                lemma_days_order(y, sm, 1, y, m, dd);
            }
            if m < em || dd < last {
                lemma_days_order(y, m, dd, y, em, last);
            }
        },
    }
}

/// The first day of a period is its own first day again:
/// `bop(bop(d, p), p) == bop(d, p)`, where `b` is `bop(d, p)`.
pub proof fn lemma_period_start_idempotent(d: Date, p: Period, b: Date)
    requires
        d.wf(),
        b.wf(),
        b.days() == period_start(d, p),
    ensures
        period_start(b, p) == b.days(),
{
    let (y, m) = (d.year, d.month as int);
    match p {
        Period::Week => {
            let n = d.days();
            assert(weekday0_of(n - (n - 1) % 7) == 0);
        },
        _ => {
            let sm: int = match p {
                Period::Year => 1,
                Period::Semiannual => if m <= 6 { 1 } else { 7 },
                Period::Quarter => quarter_start(m),
                _ => m,
            };
            let c = Date { year: y, month: sm as u32, day: 1 };
            lemma_days_injective(b, c);
        },
    }
}

/// The last day of a period is its own last day again:
/// `eop(eop(d, p), p) == eop(d, p)`, where `e` is `eop(d, p)`.
pub proof fn lemma_period_end_idempotent(d: Date, p: Period, e: Date)
    requires
        d.wf(),
        e.wf(),
        e.days() == period_end(d, p),
    ensures
        period_end(e, p) == e.days(),
{
    let (y, m) = (d.year, d.month as int);
    match p {
        Period::Week => {
            let n = d.days();
            assert(weekday0_of(n - (n - 1) % 7 + 6) == 6);
        },
        _ => {
            let em: int = match p {
                Period::Year => 12,
                Period::Semiannual => if m <= 6 { 6 } else { 12 },
                Period::Quarter => quarter_start(m) + 2,
                _ => m,
            };
            let c = Date { year: y, month: em as u32, day: days_in_month(y as int, em) as u32 };
            lemma_days_injective(e, c);
        },
    }
}

} // verus!
