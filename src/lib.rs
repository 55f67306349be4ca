//! Calendar dates: parsing of loosely written dates, month and day
//! arithmetic, period boundaries and date parts, on a validated Gregorian
//! date type with a proleptic day count.
use vstd::prelude::*;

pub mod calendar;
pub mod dateof;
pub mod parse;
pub mod period;
pub mod rdate;

use calendar::Date;
use dateof::{all_wf, map_dates};
use parse::{number_date, text_date};
use period::{end_fn, months_fn, period_named, start_fn};

verus! {

/// The date that each integer spells as `yyyymmdd` or `yymmdd`; a missing
/// or invalid entry gives a missing date.
pub fn ints2dates(x: &[Option<i32>]) -> (r: Vec<Option<Date>>)
    ensures
        r@ == Seq::new(
            x@.len(),
            |i: int|
                match x@[i] {
                    Some(v) => number_date(v as int, true),
                    None => None,
                },
        ),
        all_wf(r@),
{
    let mut r: Vec<Option<Date>> = Vec::new();
    let mut i: usize = 0;
    while i < x.len()
        invariant
            i <= x@.len(),
            r@.len() == i,
            forall|j: int|
                0 <= j < i ==> #[trigger] r@[j] == match x@[j] {
                    Some(v) => number_date(v as int, true),
                    None => None,
                },
            all_wf(r@),
        decreases x@.len() - i,
    {
        let v = match x[i] {
            Some(v) => parse::int2date(v, true),
            None => None,
        };
        r.push(v);
        i += 1;
    }
    assert(r@ =~= Seq::new(
        x@.len(),
        |i: int|
            match x@[i] {
                Some(v) => number_date(v as int, true),
                None => None,
            },
    ));
    r
}

/// The date that each text writes; a missing or unreadable entry gives a
/// missing date.
pub fn strs2dates(x: &[Option<String>]) -> (r: Vec<Option<Date>>)
    ensures
        r@ == Seq::new(
            x@.len(),
            |i: int|
                match x@[i] {
                    Some(s) => text_date(s@),
                    None => None,
                },
        ),
        all_wf(r@),
{
    let mut r: Vec<Option<Date>> = Vec::new();
    let mut i: usize = 0;
    while i < x.len()
        invariant
            i <= x@.len(),
            r@.len() == i,
            forall|j: int|
                0 <= j < i ==> #[trigger] r@[j] == match x@[j] {
                    Some(s) => text_date(s@),
                    None => None,
                },
            all_wf(r@),
        decreases x@.len() - i,
    {
        let v = match &x[i] {
            Some(s) => parse::str2date(s.as_str()),
            None => None,
        };
        r.push(v);
        i += 1;
    }
    assert(r@ =~= Seq::new(
        x@.len(),
        |i: int|
            match x@[i] {
                Some(s) => text_date(s@),
                None => None,
            },
    ));
    r
}

/// The first (`at_end` false) or last day of the period named `unit` of each
/// date. An unknown name gives all dates missing; a date whose period reaches
/// past the supported years gives a missing date.
pub fn beop(x: &[Option<Date>], unit: &str, at_end: bool) -> (r: Vec<Option<Date>>)
    requires
        all_wf(x@),
    ensures
        r@ == match period_named(unit@) {
            Some(p) => map_dates(x@, if at_end { end_fn(p) } else { start_fn(p) }),
            None => Seq::new(x@.len(), |i: int| None::<Date>),
        },
{
    let p = match period::to_period(unit) {
        Some(p) => p,
        None => {
            let mut r: Vec<Option<Date>> = Vec::new();
            let mut i: usize = 0;
            while i < x.len()
                invariant
                    i <= x@.len(),
                    r@ =~= Seq::new(i as nat, |j: int| None::<Date>),
                decreases x@.len() - i,
            {
                r.push(None);
                i += 1;
            }
            return r;
        },
    };
    let ghost f = if at_end { end_fn(p) } else { start_fn(p) };
    let mut r: Vec<Option<Date>> = Vec::new();
    let mut i: usize = 0;
    while i < x.len()
        invariant
            all_wf(x@),
            i <= x@.len(),
            f == (if at_end { end_fn(p) } else { start_fn(p) }),
            r@ =~= map_dates(x@, f).subrange(0, i as int),
        decreases x@.len() - i,
    {
        let v = match &x[i] {
            Some(d) => if period::has_period_room(d, p) {
                if at_end {
                    Some(period::eop(d, p))
                } else {
                    Some(period::bop(d, p))
                }
            } else {
                None
            },
            None => None,
        };
        r.push(v);
        i += 1;
    }
    r
}

/// The first day of the period named `unit` of each date; see [`beop`].
pub fn period_begin(x: &[Option<Date>], unit: &str) -> (r: Vec<Option<Date>>)
    requires
        all_wf(x@),
    ensures
        r@ == match period_named(unit@) {
            Some(p) => map_dates(x@, start_fn(p)),
            None => Seq::new(x@.len(), |i: int| None::<Date>),
        },
{
    beop(x, unit, false)
}

/// The last day of the period named `unit` of each date; see [`beop`].
pub fn period_end(x: &[Option<Date>], unit: &str) -> (r: Vec<Option<Date>>)
    requires
        all_wf(x@),
    ensures
        r@ == match period_named(unit@) {
            Some(p) => map_dates(x@, end_fn(p)),
            None => Seq::new(x@.len(), |i: int| None::<Date>),
        },
{
    beop(x, unit, true)
}

/// Each date moved by `months` months, with the day cut down to the end of
/// the target month; a missing date, or one moved past the supported years,
/// gives a missing date.
pub fn edate(ref_date: &[Option<Date>], months: i32) -> (r: Vec<Option<Date>>)
    requires
        all_wf(ref_date@),
    ensures
        r@ == map_dates(ref_date@, months_fn(months as int)),
{
    let mut r: Vec<Option<Date>> = Vec::new();
    let mut i: usize = 0;
    while i < ref_date.len()
        invariant
            all_wf(ref_date@),
            i <= ref_date@.len(),
            r@ =~= map_dates(ref_date@, months_fn(months as int)).subrange(0, i as int),
        decreases ref_date@.len() - i,
    {
        let v = match &ref_date[i] {
            Some(d) => if period::has_month_room(d, months) {
                Some(period::add_months(d, months))
            } else {
                None
            },
            None => None,
        };
        r.push(v);
        i += 1;
    }
    r
}

} // verus!
