//! Parts of dates (year, month, quarter, ISO week, weekdays, day of month and
//! of year), taken element by element over vectors of optional dates.
use crate::calendar::{iso_week_of, ordinal_of, weekday0_of, Date};
use vstd::prelude::*;

verus! {

/// Applies `f` to each present date of `x`; a missing date stays missing.
pub open spec fn map_dates<T>(x: Seq<Option<Date>>, f: spec_fn(Date) -> Option<T>) -> Seq<
    Option<T>,
> {
    Seq::new(
        x.len(),
        |i: int|
            match x[i] {
                Some(d) => f(d),
                None => None,
            },
    )
}

/// Every present date of `x` is well formed.
pub open spec fn all_wf(x: Seq<Option<Date>>) -> bool {
    forall|i: int| 0 <= i < x.len() ==> (#[trigger] x[i] matches Some(d) ==> d.wf())
}

/// A missing date at position `i` gives a missing result at `i`, and the
/// other results are those of the vector without position `i`.
pub proof fn lemma_null_propagation<T>(x: Seq<Option<Date>>, f: spec_fn(Date) -> Option<T>, i: int)
    requires
        0 <= i < x.len(),
        x[i] is None,
    ensures
        map_dates(x, f)[i] is None,
        map_dates(x.remove(i), f) == map_dates(x, f).remove(i),
        map_dates(x.remove(i), f).insert(i, None) == map_dates(x, f),
{
    assert(map_dates(x.remove(i), f) =~= map_dates(x, f).remove(i));
    assert(map_dates(x.remove(i), f).insert(i, None) =~= map_dates(x, f));
}

/// Quarter of month `month`, from 1.
pub fn to_quarter(month: u32) -> (r: i32)
    requires
        1 <= month <= 12,
    ensures
        r == (month - 1) / 3 + 1,
{
    if month <= 3 {
        1
    } else if month <= 6 {
        2
    } else if month <= 9 {
        3
    } else {
        4
    }
}

/// A part of a date.
#[derive(Clone, Copy, Debug, PartialEq, Eq, Structural)]
pub enum DatePart {
    /// The year.
    Year,
    /// The month, 1 to 12.
    Month,
    /// The quarter, 1 to 4.
    Quarter,
    /// The ISO 8601 week number, 1 to 53.
    IsoWeek,
    /// The day of the week from Sunday = 1 to Saturday = 7.
    Wday,
    /// The day of the month, from 1.
    Mday,
    /// The day of the year, from 1.
    Yday,
    /// The day of the week from Monday = 1 to Sunday = 7.
    IsoWday,
}

/// The value of `part` for the date `d`.
pub open spec fn part_value(d: Date, part: DatePart) -> int {
    let (y, m, dd) = (d.year as int, d.month as int, d.day as int);
    match part {
        DatePart::Year => y,
        DatePart::Month => m,
        DatePart::Quarter => (m - 1) / 3 + 1,
        DatePart::IsoWeek => iso_week_of(d.days(), y),
        DatePart::Wday => (weekday0_of(d.days()) + 1) % 7 + 1,
        DatePart::Mday => dd,
        DatePart::Yday => ordinal_of(y, m, dd),
        DatePart::IsoWday => weekday0_of(d.days()) + 1,
    }
}

/// `part` of a date, as the element-wise function that the vector form applies.
pub open spec fn part_fn(part: DatePart) -> spec_fn(Date) -> Option<i32> {
    |d: Date| Some(part_value(d, part) as i32)
}

/// The value of `part` for the date `d`.
pub fn date_part(d: &Date, part: DatePart) -> (r: i32)
    requires
        d.wf(),
    ensures
        r == part_value(*d, part) as i32,
{
    match part {
        DatePart::Year => d.year,
        DatePart::Month => d.month as i32,
        DatePart::Quarter => to_quarter(d.month),
        DatePart::IsoWeek => d.iso_week().1 as i32,
        DatePart::Wday => ((d.num_days_from_monday() + 1) % 7 + 1) as i32,
        DatePart::Mday => d.day as i32,
        DatePart::Yday => d.ordinal() as i32,
        DatePart::IsoWday => (d.num_days_from_monday() + 1) as i32,
    }
}

/// `part` of each date of `x`; a missing date gives a missing value.
pub fn date_parts(x: &[Option<Date>], part: DatePart) -> (r: Vec<Option<i32>>)
    requires
        all_wf(x@),
    ensures
        r@ == map_dates(x@, part_fn(part)),
{
    let mut r: Vec<Option<i32>> = Vec::new();
    let mut i: usize = 0;
    while i < x.len()
        invariant
            all_wf(x@),
            i <= x@.len(),
            r@ =~= map_dates(x@, part_fn(part)).subrange(0, i as int),
        decreases x@.len() - i,
    {
        let v = match &x[i] {
            Some(d) => Some(date_part(d, part)),
            None => None,
        };
        r.push(v);
        i += 1;
    }
    r
}

/// Year of each date.
pub fn year(x: &[Option<Date>]) -> (r: Vec<Option<i32>>)
    requires
        all_wf(x@),
    ensures
        r@ == map_dates(x@, part_fn(DatePart::Year)),
{
    date_parts(x, DatePart::Year)
}

/// Month of each date.
pub fn month(x: &[Option<Date>]) -> (r: Vec<Option<i32>>)
    requires
        all_wf(x@),
    ensures
        r@ == map_dates(x@, part_fn(DatePart::Month)),
{
    date_parts(x, DatePart::Month)
}

/// Quarter of each date.
pub fn quarter(x: &[Option<Date>]) -> (r: Vec<Option<i32>>)
    requires
        all_wf(x@),
    ensures
        r@ == map_dates(x@, part_fn(DatePart::Quarter)),
{
    date_parts(x, DatePart::Quarter)
}

/// ISO week number of each date.
pub fn isoweek(x: &[Option<Date>]) -> (r: Vec<Option<i32>>)
    requires
        all_wf(x@),
    ensures
        r@ == map_dates(x@, part_fn(DatePart::IsoWeek)),
{
    date_parts(x, DatePart::IsoWeek)
}

/// Day of the week of each date, from Sunday = 1.
pub fn wday(x: &[Option<Date>]) -> (r: Vec<Option<i32>>)
    requires
        all_wf(x@),
    ensures
        r@ == map_dates(x@, part_fn(DatePart::Wday)),
{
    date_parts(x, DatePart::Wday)
}

/// Day of the month of each date.
pub fn mday(x: &[Option<Date>]) -> (r: Vec<Option<i32>>)
    requires
        all_wf(x@),
    ensures
        r@ == map_dates(x@, part_fn(DatePart::Mday)),
{
    date_parts(x, DatePart::Mday)
}

/// Day of the year of each date.
pub fn yday(x: &[Option<Date>]) -> (r: Vec<Option<i32>>)
    requires
        all_wf(x@),
    ensures
        r@ == map_dates(x@, part_fn(DatePart::Yday)),
{
    date_parts(x, DatePart::Yday)
}

/// Day of the week of each date, from Monday = 1.
pub fn isowday(x: &[Option<Date>]) -> (r: Vec<Option<i32>>)
    requires
        all_wf(x@),
    ensures
        r@ == map_dates(x@, part_fn(DatePart::IsoWday)),
{
    date_parts(x, DatePart::IsoWday)
}

} // verus!
