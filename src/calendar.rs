//! The validated calendar date and the day count that orders it.
use chrono::{Datelike, NaiveDate};
use vstd::prelude::*;

verus! {

/// Smallest year that a date may have.
pub const MIN_YEAR: i32 = -262143;

/// Largest year that a date may have.
pub const MAX_YEAR: i32 = 262142;

/// Gregorian leap year rule.
pub open spec fn is_leap(y: int) -> bool {
    y % 4 == 0 && (y % 100 != 0 || y % 400 == 0)
}

/// Number of days of month `m` of year `y`.
pub open spec fn days_in_month(y: int, m: int) -> int {
    if m == 2 {
        if is_leap(y) { 29 } else { 28 }
    } else if m == 4 || m == 6 || m == 9 || m == 11 {
        30
    } else {
        31
    }
}

/// `(y, m, d)` names a day of the Gregorian calendar.
pub open spec fn valid_ymd(y: int, m: int, d: int) -> bool {
    1 <= m <= 12 && 1 <= d <= days_in_month(y, m)
}

/// Days of all years before year `y`, counted from year 1.
#[verifier::opaque]
pub open spec fn days_before_year(y: int) -> int {
    let p = y - 1;
    365 * p + p / 4 - p / 100 + p / 400
}

/// Days of the months of year `y` before month `m`.
pub open spec fn days_before_month(y: int, m: int) -> int {
    let leap: int = if is_leap(y) { 1 } else { 0 };
    if m <= 1 { 0 }
    else if m == 2 { 31 }
    else if m == 3 { 59 + leap }
    else if m == 4 { 90 + leap }
    else if m == 5 { 120 + leap }
    else if m == 6 { 151 + leap }
    else if m == 7 { 181 + leap }
    else if m == 8 { 212 + leap }
    else if m == 9 { 243 + leap }
    else if m == 10 { 273 + leap }
    else if m == 11 { 304 + leap }
    else { 334 + leap }
}

/// Day of the year, from 1.
pub open spec fn ordinal_of(y: int, m: int, d: int) -> int {
    days_before_month(y, m) + d
}

/// Day count of the proleptic Gregorian calendar, January 1 of year 1 being day 1.
pub open spec fn ce_days(y: int, m: int, d: int) -> int {
    days_before_year(y) + ordinal_of(y, m, d)
}

/// First day count that a date may have.
pub open spec fn min_days() -> int {
    ce_days(MIN_YEAR as int, 1, 1)
}

/// Last day count that a date may have.
pub open spec fn max_days() -> int {
    ce_days(MAX_YEAR as int, 12, 31)
}

/// Day of the week of day count `n`, from Monday = 0 to Sunday = 6
/// (day 1 was a Monday).
pub open spec fn weekday0_of(n: int) -> int {
    (n - 1) % 7
}

/// Day count of the Monday that starts ISO week 1 of ISO year `y`: the week
/// that holds January 4.
pub open spec fn iso_week1_start(y: int) -> int {
    let jan4 = ce_days(y, 1, 4);
    jan4 - weekday0_of(jan4)
}

/// Number of ISO weeks of ISO year `y`.
pub open spec fn iso_weeks_in(y: int) -> int {
    (iso_week1_start(y + 1) - iso_week1_start(y)) / 7
}

/// Day count of day `wd` (Monday = 0) of ISO week `w` of ISO year `y`.
pub open spec fn iso_day(y: int, w: int, wd: int) -> int {
    iso_week1_start(y) + 7 * (w - 1) + wd
}

/// ISO year `y` has a week `w`, and its day `wd` lies within the supported years.
pub open spec fn iso_day_exists(y: int, w: int, wd: int) -> bool {
    1 <= w <= iso_weeks_in(y) && min_days() <= iso_day(y, w, wd) <= max_days()
}

/// ISO week-numbering year of day count `n`, which falls in calendar year `y`.
pub open spec fn iso_year_of(n: int, y: int) -> int {
    if n >= iso_week1_start(y + 1) {
        y + 1
    } else if n >= iso_week1_start(y) {
        y
    } else {
        y - 1
    }
}

/// ISO week number of day count `n`, which falls in calendar year `y`.
pub open spec fn iso_week_of(n: int, y: int) -> int {
    (n - iso_week1_start(iso_year_of(n, y))) / 7 + 1
}

/// One year later, the count of days has grown by the length of the year.
pub proof fn lemma_year_step(y: int)
    ensures
        days_before_year(y + 1) == days_before_year(y) + 365 + (if is_leap(y) { 1int } else { 0 }),
{
    reveal(days_before_year);
    let p = y - 1;
    assert((p + 1) / 4 == p / 4 + (if y % 4 == 0 { 1int } else { 0 }));
    assert((p + 1) / 100 == p / 100 + (if y % 100 == 0 { 1int } else { 0 }));
    assert((p + 1) / 400 == p / 400 + (if y % 400 == 0 { 1int } else { 0 }));
}

/// Years later, at least 365 days more per year have passed.
pub proof fn lemma_years_grow(y1: int, y2: int)
    requires
        y1 <= y2,
    ensures
        days_before_year(y2) >= days_before_year(y1) + 365 * (y2 - y1),
    decreases y2 - y1,
{
    if y1 < y2 {
        lemma_years_grow(y1, y2 - 1);
        lemma_year_step(y2 - 1);
    }
}

/// The day of the year of a valid date lies within the year.
pub proof fn lemma_ordinal_range(y: int, m: int, d: int)
    requires
        valid_ymd(y, m, d),
    ensures
        1 <= ordinal_of(y, m, d) <= 365 + (if is_leap(y) { 1int } else { 0 }),
{
}

/// Within a year, a later month and day has a larger day of the year.
pub proof fn lemma_ordinal_strict(y: int, m1: int, d1: int, m2: int, d2: int)
    requires
        valid_ymd(y, m1, d1),
        valid_ymd(y, m2, d2),
        m1 < m2 || (m1 == m2 && d1 < d2),
    ensures
        ordinal_of(y, m1, d1) < ordinal_of(y, m2, d2),
{
}

/// The day after the last day of a month is the first day of the next month.
pub proof fn lemma_month_end(y: int, m: int)
    requires
        1 <= m <= 12,
    ensures
        ce_days(y, m, days_in_month(y, m)) + 1 == (if m == 12 {
            ce_days(y + 1, 1, 1)
        } else {
            ce_days(y, m + 1, 1)
        }),
{
    lemma_year_step(y);
}

/// Earlier dates have smaller day counts: the day count orders dates
/// chronologically.
pub proof fn lemma_days_order(y1: int, m1: int, d1: int, y2: int, m2: int, d2: int)
    requires
        valid_ymd(y1, m1, d1),
        valid_ymd(y2, m2, d2),
        y1 < y2 || (y1 == y2 && (m1 < m2 || (m1 == m2 && d1 < d2))),
    ensures
        ce_days(y1, m1, d1) < ce_days(y2, m2, d2),
{
    if y1 < y2 {
        lemma_ordinal_range(y1, m1, d1);
        lemma_ordinal_range(y2, m2, d2);
        lemma_year_step(y1);
        lemma_years_grow(y1 + 1, y2);
    } else {
        lemma_ordinal_strict(y1, m1, d1, m2, d2);
    }
}

/// Two well-formed dates with the same day count are the same date.
pub proof fn lemma_days_injective(a: Date, b: Date)
    requires
        a.wf(),
        b.wf(),
        a.days() == b.days(),
    ensures
        a == b,
{
    let (y1, m1, d1) = (a.year as int, a.month as int, a.day as int);
    let (y2, m2, d2) = (b.year as int, b.month as int, b.day as int);
    if y1 < y2 || (y1 == y2 && (m1 < m2 || (m1 == m2 && d1 < d2))) {
        lemma_days_order(y1, m1, d1, y2, m2, d2);
    } else if y2 < y1 || (y1 == y2 && (m2 < m1 || (m1 == m2 && d2 < d1))) {
        lemma_days_order(y2, m2, d2, y1, m1, d1);
    }
}

/// The day counts of well-formed dates lie between those of the first and
/// the last supported day, and fit an `i32` with room to spare.
pub proof fn lemma_days_range(d: Date)
    requires
        d.wf(),
    ensures
        min_days() <= d.days() <= max_days(),
        -100_000_000 < min_days(),
        max_days() < 100_000_000,
{
    let (y, m, dd) = (d.year as int, d.month as int, d.day as int);
    reveal(days_before_year);
    assert(min_days() == -95_746_129);
    assert(max_days() == 95_745_399);
    if !(y == MIN_YEAR && m == 1 && dd == 1) {
        lemma_days_order(MIN_YEAR as int, 1, 1, y, m, dd);
    }
    if !(y == MAX_YEAR && m == 12 && dd == 31) {
        lemma_days_order(y, m, dd, MAX_YEAR as int, 12, 31);
    }
}

/// The well-formed date whose day count is `n` (one exists for every `n`
/// from [`min_days`] to [`max_days`]).
pub open spec fn date_with_days(n: int) -> Date {
    choose|x: Date| x.wf() && x.days() == n
}

/// A well-formed date is the date of its own day count.
pub proof fn lemma_date_with_days(d: Date)
    requires
        d.wf(),
    ensures
        date_with_days(d.days()) == d,
{
    let x = date_with_days(d.days());
    lemma_days_injective(x, d);
}

/// A calendar date. Use it through [`Date::from_ymd_opt`] or the functions
/// that return one: those only ever build well-formed dates.
#[derive(Clone, Copy, Debug, PartialEq, Eq, Structural)]
pub struct Date {
    pub year: i32,
    pub month: u32,
    pub day: u32,
}

impl Date {
    /// The date names a real day within the supported years.
    pub open spec fn wf(self) -> bool {
        &&& valid_ymd(self.year as int, self.month as int, self.day as int)
        &&& MIN_YEAR <= self.year <= MAX_YEAR
    }

    /// The date's place in the proleptic day count.
    pub open spec fn days(self) -> int {
        ce_days(self.year as int, self.month as int, self.day as int)
    }

    /// Builds the date `(year, month, day)` if it is a real day within the supported years.
    pub fn from_ymd_opt(year: i32, month: u32, day: u32) -> (r: Option<Date>)
        ensures
            r == (if valid_ymd(year as int, month as int, day as int) && MIN_YEAR <= year
                <= MAX_YEAR {
                Some(Date { year, month, day })
            } else {
                None
            }),
    {
        if ymd_exists(year, month, day) {
            Some(Date { year, month, day })
        } else {
            None
        }
    }

    /// The date's year.
    pub fn year(&self) -> (r: i32)
        ensures
            r == self.year,
    {
        self.year
    }

    /// The date's month, from 1.
    pub fn month(&self) -> (r: u32)
        ensures
            r == self.month,
    {
        self.month
    }

    /// The date's day of the month, from 1.
    pub fn day(&self) -> (r: u32)
        ensures
            r == self.day,
    {
        self.day
    }

    /// Day count from January 1 of year 1 (day 1).
    pub fn num_days_from_ce(&self) -> (r: i32)
        requires
            self.wf(),
        ensures
            r == self.days(),
    {
        days_of_date(self)
    }

    /// The date of day count `n`; `None` exactly when that day lies outside
    /// the supported years.
    pub fn from_num_days_from_ce_opt(n: i32) -> (r: Option<Date>)
        ensures
            r is Some <==> min_days() <= n <= max_days(),
            forall|x: Date| x.wf() && x.days() == n ==> r == Some(x),
            r matches Some(x) ==> x.wf() && x.days() == n,
    {
        let r = date_of_days(n);
        proof {
            assert forall|x: Date| x.wf() && x.days() == n implies r == Some(x) by {
                lemma_days_range(x);
                lemma_days_injective(r.unwrap(), x);
            }
        }
        r
    }

    /// Day of the week, from Monday = 0 to Sunday = 6.
    pub fn num_days_from_monday(&self) -> (r: u32)
        requires
            self.wf(),
        ensures
            r == weekday0_of(self.days()),
    {
        weekday_of_date(self)
    }

    /// Day of the year, from 1.
    pub fn ordinal(&self) -> (r: u32)
        requires
            self.wf(),
        ensures
            r == ordinal_of(self.year as int, self.month as int, self.day as int),
    {
        ordinal_of_date(self)
    }

    /// ISO week-numbering year and ISO week number of the date.
    pub fn iso_week(&self) -> (r: (i32, u32))
        requires
            self.wf(),
        ensures
            r.0 == iso_year_of(self.days(), self.year as int),
            r.1 == iso_week_of(self.days(), self.year as int),
    {
        iso_week_of_date(self)
    }

    /// The day `weekday` (Monday = 0) of ISO week `week` of ISO year `year`.
    /// `None` when the year has no such week or the day lies outside the
    /// supported years.
    pub fn from_isoywd_opt(year: i32, week: u32, weekday: u32) -> (r: Option<Date>)
        requires
            MIN_YEAR <= year <= MAX_YEAR,
            weekday < 7,
        ensures
            r is Some <==> iso_day_exists(year as int, week as int, weekday as int),
            r matches Some(x) ==> x.wf() && x.days() == iso_day(year as int, week as int, weekday as int),
    {
        date_of_iso_week(year, week, weekday)
    }

    /// Signed number of days from `rhs` to `self`.
    pub fn signed_days_since(&self, rhs: &Date) -> (r: i64)
        requires
            self.wf(),
            rhs.wf(),
        ensures
            r == self.days() - rhs.days(),
    {
        days_between(self, rhs)
    }
}

/// Relies on chrono's `Datelike::num_days_from_ce`: the proleptic Gregorian
/// day count with January 1 of year 1 as day 1.
#[verifier::external_body]
fn days_of_date(d: &Date) -> (r: i32)
    requires
        d.wf(),
    ensures
        r == d.days(),
{
    NaiveDate::from_ymd_opt(d.year, d.month, d.day).unwrap().num_days_from_ce()
}

/// Relies on chrono's `NaiveDate::from_num_days_from_ce_opt`: the date of a
/// proleptic day count, or `None` outside the supported years.
#[verifier::external_body]
fn date_of_days(n: i32) -> (r: Option<Date>)
    ensures
        r is Some <==> min_days() <= n <= max_days(),
        r matches Some(x) ==> x.wf() && x.days() == n,
{
    match NaiveDate::from_num_days_from_ce_opt(n) {
        Some(x) => Some(Date { year: x.year(), month: x.month(), day: x.day() }),
        None => None,
    }
}

/// Relies on chrono's `Weekday::num_days_from_monday` of `Datelike::weekday`.
#[verifier::external_body]
fn weekday_of_date(d: &Date) -> (r: u32)
    requires
        d.wf(),
    ensures
        r == weekday0_of(d.days()),
{
    NaiveDate::from_ymd_opt(d.year, d.month, d.day).unwrap().weekday().num_days_from_monday()
}

/// Relies on chrono's `Datelike::ordinal`: the day of the year from 1.
#[verifier::external_body]
fn ordinal_of_date(d: &Date) -> (r: u32)
    requires
        d.wf(),
    ensures
        r == ordinal_of(d.year as int, d.month as int, d.day as int),
{
    NaiveDate::from_ymd_opt(d.year, d.month, d.day).unwrap().ordinal()
}

/// Relies on chrono's `Datelike::iso_week`, with `IsoWeek::year` and
/// `IsoWeek::week`: ISO 8601 week-numbering year and week.
#[verifier::external_body]
fn iso_week_of_date(d: &Date) -> (r: (i32, u32))
    requires
        d.wf(),
    ensures
        r.0 == iso_year_of(d.days(), d.year as int),
        r.1 == iso_week_of(d.days(), d.year as int),
{
    let w = NaiveDate::from_ymd_opt(d.year, d.month, d.day).unwrap().iso_week();
    (w.year(), w.week())
}

/// Relies on chrono's `NaiveDate::from_isoywd_opt`: the given day of the given
/// ISO week, `None` for a week the year lacks or a day outside the supported
/// years. The weekday is passed as its number from Monday = 0.
#[verifier::external_body]
fn date_of_iso_week(year: i32, week: u32, weekday: u32) -> (r: Option<Date>)
    requires
        MIN_YEAR <= year <= MAX_YEAR,
        weekday < 7,
    ensures
        r is Some <==> iso_day_exists(year as int, week as int, weekday as int),
        r matches Some(x) ==> x.wf() && x.days() == iso_day(year as int, week as int, weekday as int),
{
    let wd = chrono::Weekday::try_from(weekday as u8).unwrap();
    match NaiveDate::from_isoywd_opt(year, week, wd) {
        Some(x) => Some(Date { year: x.year(), month: x.month(), day: x.day() }),
        None => None,
    }
}

/// Relies on chrono's `NaiveDate::signed_duration_since` with
/// `TimeDelta::num_days`: the difference of the two day counts.
#[verifier::external_body]
fn days_between(a: &Date, b: &Date) -> (r: i64)
    requires
        a.wf(),
        b.wf(),
    ensures
        r == a.days() - b.days(),
{
    let a = NaiveDate::from_ymd_opt(a.year, a.month, a.day).unwrap();
    let b = NaiveDate::from_ymd_opt(b.year, b.month, b.day).unwrap();
    a.signed_duration_since(b).num_days()
}

/// Relies on chrono's `NaiveDate::from_ymd_opt`: it gives a date exactly for
/// a valid Gregorian day within its supported years.
#[verifier::external_body]
fn ymd_exists(year: i32, month: u32, day: u32) -> (r: bool)
    ensures
        r == (valid_ymd(year as int, month as int, day as int) && MIN_YEAR <= year <= MAX_YEAR),
{
    NaiveDate::from_ymd_opt(year, month, day).is_some()
}

} // verus!
