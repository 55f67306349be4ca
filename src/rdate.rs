//! Dates as host day numbers: signed days since 1970-01-01.
use crate::calendar::{
    date_with_days, lemma_date_with_days, lemma_days_range, max_days, min_days, Date,
};
use crate::dateof::{all_wf, map_dates};
use vstd::prelude::*;

verus! {

/// Days from the start of the day count (January 1 of year 1 is day 1) to
/// 1970-01-01, day 0 of the host numbers.
pub const R_DATE_FROM_CE: i32 = 719163;

/// The host day number of `d`.
pub open spec fn host_days(d: Date) -> int {
    d.days() - R_DATE_FROM_CE
}

/// The date of host day number `n`, or `None` outside the supported years.
pub open spec fn host_date(n: int) -> Option<Date> {
    let c = n + R_DATE_FROM_CE;
    if min_days() <= c <= max_days() {
        Some(date_with_days(c))
    } else {
        None
    }
}

/// Host day number of each date, as the element-wise function that the
/// vector form applies.
pub open spec fn host_fn() -> spec_fn(Date) -> Option<i32> {
    |d: Date| Some(host_days(d) as i32)
}

/// Decoding the host day number of a date gives back that date.
pub proof fn lemma_round_trip(d: Date)
    requires
        d.wf(),
    ensures
        host_date(host_days(d)) == Some(d),
        i32::MIN <= host_days(d) <= i32::MAX,
{
    lemma_days_range(d);
    lemma_date_with_days(d);
}

/// The host day number of `x`.
pub fn date2rnum(x: &Date) -> (r: i32)
    requires
        x.wf(),
    ensures
        r == host_days(*x),
{
    proof {
        lemma_days_range(*x);
    }
    x.num_days_from_ce() - R_DATE_FROM_CE
}

/// The date of host day number `n`; `None` when it lies outside the
/// supported years, never a date of another day.
pub fn rnum2date(n: i32) -> (r: Option<Date>)
    ensures
        r == host_date(n as int),
        r matches Some(d) ==> d.wf(),
{
    let c: i64 = n as i64 + R_DATE_FROM_CE as i64;
    if c > 100_000_000 {
        proof {
            assert(max_days() == 95_745_399) by {
                reveal(crate::calendar::days_before_year);
            }
        }
        return None;
    }
    let r = Date::from_num_days_from_ce_opt(c as i32);
    proof {
        if let Some(d) = r {
            lemma_date_with_days(d);
        }
    }
    r
}

/// The date of each host day number; a missing number gives a missing date.
pub fn rnums2dates(x: &[Option<i32>]) -> (r: Vec<Option<Date>>)
    ensures
        r@ == Seq::new(
            x@.len(),
            |i: int|
                match x@[i] {
                    Some(n) => host_date(n as int),
                    None => None,
                },
        ),
        all_wf(r@),
{
    let mut r: Vec<Option<Date>> = Vec::new();
    let mut i: usize = 0;
    while i < x.len()
        invariant
            i <= x@.len(),
            r@.len() == i,
            forall|j: int|
                0 <= j < i ==> #[trigger] r@[j] == match x@[j] {
                    Some(n) => host_date(n as int),
                    None => None,
                },
            all_wf(r@),
        decreases x@.len() - i,
    {
        let v = match x[i] {
            Some(n) => rnum2date(n),
            None => None,
        };
        r.push(v);
        i += 1;
    }
    assert(r@ =~= Seq::new(
        x@.len(),
        |i: int|
            match x@[i] {
                Some(n) => host_date(n as int),
                None => None,
            },
    ));
    r
}

/// The host day number of each date; a missing date gives a missing number.
pub fn dates2rnums(x: &[Option<Date>]) -> (r: Vec<Option<i32>>)
    requires
        all_wf(x@),
    ensures
        r@ == map_dates(x@, host_fn()),
{
    let mut r: Vec<Option<i32>> = Vec::new();
    let mut i: usize = 0;
    while i < x.len()
        invariant
            all_wf(x@),
            i <= x@.len(),
            r@ =~= map_dates(x@, host_fn()).subrange(0, i as int),
        decreases x@.len() - i,
    {
        let v = match &x[i] {
            Some(d) => Some(date2rnum(d)),
            None => None,
        };
        r.push(v);
        i += 1;
    }
    r
}

} // verus!
