use ymd::calendar::Date;

fn from_ymd(y: i32, m: u32, d: u32) -> Date {
    Date::from_ymd_opt(y, m, d).unwrap()
}

#[test]
fn validity_of_days() {
    assert!(Date::from_ymd_opt(2020, 2, 29).is_some());
    assert!(Date::from_ymd_opt(2021, 2, 29).is_none());
    assert!(Date::from_ymd_opt(1900, 2, 29).is_none());
    assert!(Date::from_ymd_opt(2000, 2, 29).is_some());
    assert!(Date::from_ymd_opt(-4, 2, 29).is_some());
    assert!(Date::from_ymd_opt(2021, 4, 31).is_none());
    assert!(Date::from_ymd_opt(2021, 0, 1).is_none());
    assert!(Date::from_ymd_opt(2021, 13, 1).is_none());
    assert!(Date::from_ymd_opt(400000, 1, 1).is_none());
    let d = from_ymd(2015, 3, 14);
    assert_eq!((d.year(), d.month(), d.day()), (2015, 3, 14));
}

#[test]
fn day_counts() {
    assert_eq!(from_ymd(1, 1, 1).num_days_from_ce(), 1);
    assert_eq!(from_ymd(0, 12, 31).num_days_from_ce(), 0);
    assert_eq!(from_ymd(1999, 9, 3).num_days_from_ce(), 730_000);
    assert_eq!(Date::from_num_days_from_ce_opt(730_000), Some(from_ymd(1999, 9, 3)));
    assert_eq!(Date::from_num_days_from_ce_opt(-1), Some(from_ymd(0, 12, 30)));
    assert_eq!(Date::from_num_days_from_ce_opt(100_000_000), None);
    assert_eq!(from_ymd(-262143, 1, 1).num_days_from_ce(), -95_746_129);
    assert_eq!(from_ymd(262142, 12, 31).num_days_from_ce(), 95_745_399);
    assert_eq!(
        from_ymd(2014, 1, 1).signed_days_since(&from_ymd(2010, 1, 1)),
        365 * 4 + 1
    );
    assert_eq!(
        from_ymd(2010, 1, 1).signed_days_since(&from_ymd(2014, 1, 1)),
        -(365 * 4 + 1)
    );
}

#[test]
fn weekdays_and_ordinals() {
    assert_eq!(from_ymd(2015, 9, 8).num_days_from_monday(), 1);
    assert_eq!(from_ymd(-308, 3, 14).num_days_from_monday(), 4);
    assert_eq!(from_ymd(1, 1, 1).num_days_from_monday(), 0);
    assert_eq!(from_ymd(2015, 9, 8).ordinal(), 251);
    assert_eq!(from_ymd(-308, 3, 14).ordinal(), 74);
}

#[test]
fn iso_weeks() {
    assert_eq!(from_ymd(2015, 12, 31).iso_week(), (2015, 53));
    assert_eq!(from_ymd(2016, 1, 3).iso_week(), (2015, 53));
    assert_eq!(from_ymd(2014, 12, 29).iso_week(), (2015, 1));
    assert_eq!(from_ymd(2022, 1, 1).iso_week(), (2021, 52));
    assert_eq!(Date::from_isoywd_opt(2014, 52, 6), Some(from_ymd(2014, 12, 28)));
    assert_eq!(Date::from_isoywd_opt(2014, 53, 0), None);
    assert_eq!(Date::from_isoywd_opt(2015, 1, 0), Some(from_ymd(2014, 12, 29)));
    assert_eq!(Date::from_isoywd_opt(2015, 53, 6), Some(from_ymd(2016, 1, 3)));
    assert_eq!(Date::from_isoywd_opt(2015, 0, 0), None);
}
