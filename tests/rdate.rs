use ymd::calendar::Date;
use ymd::rdate::{date2rnum, dates2rnums, rnum2date, rnums2dates};

fn from_ymd(y: i32, m: u32, d: u32) -> Date {
    Date::from_ymd_opt(y, m, d).unwrap()
}

#[test]
fn lib_to_date() {
    let x = vec![Some(18990), Some(18991)];
    assert_eq!(
        rnums2dates(&x),
        [Some(from_ymd(2021, 12, 29)), Some(from_ymd(2021, 12, 30))]
    );
}

#[test]
fn rdate_to_date() {
    let r_dates = vec![Some(18990), Some(18991)];
    let rust_dates = [Some(from_ymd(2021, 12, 29)), Some(from_ymd(2021, 12, 30))];
    assert_eq!(rnums2dates(&r_dates), rust_dates);
    assert_eq!(dates2rnums(&rust_dates), r_dates);
    let rust_dates = vec![Some(from_ymd(2021, 12, 29)), Some(from_ymd(2021, 12, 30))];
    assert_eq!(dates2rnums(&rust_dates), r_dates);
}

#[test]
fn epoch_and_round_trip() {
    assert_eq!(date2rnum(&from_ymd(1970, 1, 1)), 0);
    assert_eq!(date2rnum(&from_ymd(1969, 12, 31)), -1);
    assert_eq!(rnum2date(0), Some(from_ymd(1970, 1, 1)));
    for d in [
        from_ymd(1, 1, 1),
        from_ymd(2000, 2, 29),
        from_ymd(-262143, 1, 1),
        from_ymd(262142, 12, 31),
    ] {
        assert_eq!(rnum2date(date2rnum(&d)), Some(d));
    }
}

#[test]
fn out_of_range_numbers_give_no_date() {
    assert_eq!(rnum2date(i32::MAX), None);
    assert_eq!(rnum2date(i32::MIN), None);
    assert_eq!(rnum2date(95_745_399 - 719_163 + 1), None);
    assert_eq!(
        rnum2date(95_745_399 - 719_163),
        Some(from_ymd(262142, 12, 31))
    );
    assert_eq!(rnums2dates(&[None, Some(200_000_000)]), vec![None, None]);
}
