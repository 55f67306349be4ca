use ymd::calendar::Date;
use ymd::period::{add_days, add_months, bop, eop, to_period, year_frac, Period};

fn fromymd(y: i32, m: u32, d: u32) -> Option<Date> {
    Date::from_ymd_opt(y, m, d)
}

#[test]
fn test_add_days() {
    assert_eq!(
        add_days(&fromymd(2021, 1, 1).unwrap(), -1),
        fromymd(2020, 12, 31).unwrap()
    );
    assert_eq!(
        add_days(&fromymd(2021, 1, 31).unwrap(), 1),
        fromymd(2021, 2, 1).unwrap()
    );
    assert_eq!(
        add_days(&fromymd(2021, 12, 31).unwrap(), 1),
        fromymd(2022, 1, 1).unwrap()
    );
}

#[test]
fn test_add_months() {
    assert_eq!(
        add_months(&fromymd(2021, 1, 1).unwrap(), -1),
        fromymd(2020, 12, 1).unwrap()
    );
    assert_eq!(
        add_months(&fromymd(2021, 1, 31).unwrap(), 1),
        fromymd(2021, 2, 28).unwrap()
    );
    assert_eq!(
        add_months(&fromymd(2021, 12, 31).unwrap(), 12),
        fromymd(2022, 12, 31).unwrap()
    );
}

#[test]
fn test_bop() {
    assert_eq!(
        bop(&fromymd(2021, 1, 15).unwrap(), Period::Year),
        fromymd(2021, 1, 1).unwrap()
    );
    assert_eq!(
        bop(&fromymd(2021, 12, 15).unwrap(), Period::Semiannual),
        fromymd(2021, 7, 1).unwrap()
    );
    assert_eq!(
        bop(&fromymd(2021, 5, 15).unwrap(), Period::Quarter),
        fromymd(2021, 4, 1).unwrap()
    );
    assert_eq!(
        bop(&fromymd(2021, 8, 31).unwrap(), Period::Month),
        fromymd(2021, 8, 1).unwrap()
    );
    assert_eq!(
        bop(&fromymd(2022, 1, 1).unwrap(), Period::Week),
        fromymd(2021, 12, 27).unwrap()
    );
}

#[test]
fn test_eop() {
    assert_eq!(
        eop(&fromymd(2021, 1, 15).unwrap(), Period::Year),
        fromymd(2021, 12, 31).unwrap()
    );
    assert_eq!(
        eop(&fromymd(2021, 1, 15).unwrap(), Period::Semiannual),
        fromymd(2021, 6, 30).unwrap()
    );
    assert_eq!(
        eop(&fromymd(2021, 5, 15).unwrap(), Period::Quarter),
        fromymd(2021, 6, 30).unwrap()
    );
    assert_eq!(
        eop(&fromymd(2021, 2, 12).unwrap(), Period::Month),
        fromymd(2021, 2, 28).unwrap()
    );
    assert_eq!(
        eop(&fromymd(2022, 1, 1).unwrap(), Period::Week),
        fromymd(2022, 1, 2).unwrap()
    );
}

#[test]
fn add_months_negative_shift_floors_the_year() {
    let d = fromymd(2021, 3, 31).unwrap();
    assert_eq!(add_months(&d, -15), fromymd(2019, 12, 31).unwrap());
    assert_eq!(add_months(&d, -1), fromymd(2021, 2, 28).unwrap());
    let early = fromymd(1, 2, 10).unwrap();
    assert_eq!(add_months(&early, -2), fromymd(0, 12, 10).unwrap());
    assert_eq!(add_months(&early, -14), fromymd(-1, 12, 10).unwrap());
}

#[test]
fn add_months_clamps_to_month_end() {
    let jan31 = fromymd(2021, 1, 31).unwrap();
    let feb = add_months(&jan31, 1);
    assert_eq!(feb, fromymd(2021, 2, 28).unwrap());
    assert_eq!(add_months(&feb, -1), fromymd(2021, 1, 28).unwrap());
    assert_ne!(add_months(&feb, -1), jan31);
    assert_eq!(
        add_months(&fromymd(2020, 1, 31).unwrap(), 1),
        fromymd(2020, 2, 29).unwrap()
    );
    assert_eq!(
        add_months(&fromymd(2021, 12, 31).unwrap(), 12),
        fromymd(2022, 12, 31).unwrap()
    );
}

#[test]
fn add_days_across_leap_day() {
    assert_eq!(
        add_days(&fromymd(2020, 2, 28).unwrap(), 1),
        fromymd(2020, 2, 29).unwrap()
    );
    assert_eq!(
        add_days(&fromymd(2020, 3, 1).unwrap(), -366),
        fromymd(2019, 3, 1).unwrap()
    );
}

#[test]
fn period_bounds_contain_the_date() {
    let kinds = [
        Period::Year,
        Period::Semiannual,
        Period::Quarter,
        Period::Month,
        Period::Week,
    ];
    let dates = [
        fromymd(2022, 1, 1).unwrap(),
        fromymd(2020, 2, 29).unwrap(),
        fromymd(2021, 7, 1).unwrap(),
        fromymd(2021, 12, 31).unwrap(),
        fromymd(2015, 12, 31).unwrap(),
    ];
    for d in dates.iter() {
        for p in kinds.iter() {
            let b = bop(d, *p);
            let e = eop(d, *p);
            assert!(b.num_days_from_ce() <= d.num_days_from_ce());
            assert!(d.num_days_from_ce() <= e.num_days_from_ce());
        }
    }
}

#[test]
fn period_bounds_are_idempotent() {
    let kinds = [
        Period::Year,
        Period::Semiannual,
        Period::Quarter,
        Period::Month,
        Period::Week,
    ];
    let d = fromymd(2021, 11, 17).unwrap();
    for p in kinds.iter() {
        let b = bop(&d, *p);
        assert_eq!(bop(&b, *p), b);
        let e = eop(&d, *p);
        assert_eq!(eop(&e, *p), e);
    }
}

#[test]
fn iso_week_bounds_around_new_year() {
    assert_eq!(
        bop(&fromymd(2022, 1, 1).unwrap(), Period::Week),
        fromymd(2021, 12, 27).unwrap()
    );
    assert_eq!(
        eop(&fromymd(2022, 1, 1).unwrap(), Period::Week),
        fromymd(2022, 1, 2).unwrap()
    );
    assert_eq!(
        bop(&fromymd(2016, 1, 3).unwrap(), Period::Week),
        fromymd(2015, 12, 28).unwrap()
    );
    assert_eq!(
        eop(&fromymd(2014, 12, 29).unwrap(), Period::Week),
        fromymd(2015, 1, 4).unwrap()
    );
}

#[test]
fn quarter_and_half_year_ends() {
    assert_eq!(
        eop(&fromymd(2021, 8, 2).unwrap(), Period::Quarter),
        fromymd(2021, 9, 30).unwrap()
    );
    assert_eq!(
        eop(&fromymd(2021, 11, 2).unwrap(), Period::Quarter),
        fromymd(2021, 12, 31).unwrap()
    );
    assert_eq!(
        eop(&fromymd(2021, 2, 2).unwrap(), Period::Quarter),
        fromymd(2021, 3, 31).unwrap()
    );
    assert_eq!(
        eop(&fromymd(2021, 9, 2).unwrap(), Period::Semiannual),
        fromymd(2021, 12, 31).unwrap()
    );
    assert_eq!(
        bop(&fromymd(2021, 6, 30).unwrap(), Period::Semiannual),
        fromymd(2021, 1, 1).unwrap()
    );
    assert_eq!(
        eop(&fromymd(2024, 2, 3).unwrap(), Period::Month),
        fromymd(2024, 2, 29).unwrap()
    );
}

#[test]
fn month_end_of_non_leap_february() {
    assert_eq!(
        eop(&fromymd(2021, 2, 12).unwrap(), Period::Month),
        fromymd(2021, 2, 28).unwrap()
    );
}

#[test]
fn period_names() {
    assert_eq!(to_period("year"), Some(Period::Year));
    assert_eq!(to_period("semiannual"), Some(Period::Semiannual));
    assert_eq!(to_period("quarter"), Some(Period::Quarter));
    assert_eq!(to_period("month"), Some(Period::Month));
    assert_eq!(to_period("week"), Some(Period::Week));
    assert_eq!(to_period("weeks"), None);
    assert_eq!(to_period("Year"), None);
    assert_eq!(to_period(""), None);
}

#[test]
fn year_fraction_approximation() {
    let d0 = fromymd(2020, 1, 31).unwrap();
    let d1 = fromymd(2021, 3, 1).unwrap();
    assert_eq!(year_frac(&d1, &d0), 4380 + 2 * 365 - 30 * 12);
    assert_eq!(year_frac(&d0, &d1), -(4380 + 2 * 365 - 30 * 12));
    let leap = fromymd(2020, 12, 31).unwrap();
    assert_eq!(year_frac(&leap, &fromymd(2020, 1, 1).unwrap()), 11 * 365 + 30 * 12);
}
