use fcl::calendar::{add_months, year_frac, Date, YearFraction};

fn from_ymd(year: i32, month: u32, day: u32) -> Date {
    Date::from_ymd(year, month, day).expect("invalid or out-of-range date")
}

#[test]
fn add_months_work() {
    let ref_date = from_ymd(2020, 12, 31);
    assert_eq!(add_months(&ref_date, 0), ref_date);
    assert_eq!(add_months(&ref_date, 1), from_ymd(2021, 1, 31));
    assert_eq!(add_months(&ref_date, 2), from_ymd(2021, 2, 28));
    assert_eq!(add_months(&ref_date, 11), from_ymd(2021, 11, 30));
    assert_eq!(add_months(&ref_date, 12), from_ymd(2021, 12, 31));
}

#[test]
fn to_date() {
    assert_eq!(Date::from_serial(18990), Some(from_ymd(2021, 12, 29)));
    assert_eq!(Date::from_serial(18991), Some(from_ymd(2021, 12, 30)));
}

#[test]
fn add_zero_months_is_identity() {
    for d in [from_ymd(2020, 2, 29), from_ymd(1999, 12, 31), from_ymd(-44, 3, 15)] {
        assert_eq!(add_months(&d, 0), d);
    }
}

#[test]
fn end_of_january_plus_one_month() {
    assert_eq!(add_months(&from_ymd(2021, 1, 31), 1), from_ymd(2021, 2, 28));
    assert_eq!(add_months(&from_ymd(2020, 1, 31), 1), from_ymd(2020, 2, 29));
    assert_eq!(add_months(&from_ymd(2000, 1, 31), 1), from_ymd(2000, 2, 29));
    assert_eq!(add_months(&from_ymd(1900, 1, 31), 1), from_ymd(1900, 2, 28));
}

#[test]
fn add_months_backwards_and_across_years() {
    assert_eq!(add_months(&from_ymd(2021, 3, 31), -1), from_ymd(2021, 2, 28));
    assert_eq!(add_months(&from_ymd(2021, 1, 15), -13), from_ymd(2019, 12, 15));
    assert_eq!(add_months(&from_ymd(2010, 8, 31), 6), from_ymd(2011, 2, 28));
    assert_eq!(add_months(&from_ymd(0, 1, 1), -1), from_ymd(-1, 12, 1));
}

#[test]
fn from_ymd_refuses_missing_days() {
    assert!(Date::from_ymd(2021, 2, 29).is_none());
    assert!(Date::from_ymd(2021, 4, 31).is_none());
    assert!(Date::from_ymd(2021, 13, 1).is_none());
    assert!(Date::from_ymd(2021, 0, 1).is_none());
    assert!(Date::from_ymd(400000, 1, 1).is_none());
    assert!(Date::from_ymd(-4, 2, 29).is_some());
    assert!(from_ymd(2021, 6, 30).is_valid());
    assert!(!Date { year: 2021, month: 6, day: 31 }.is_valid());
}

#[test]
fn days_since_counts_calendar_days() {
    let d0 = from_ymd(2010, 1, 1);
    assert_eq!(from_ymd(2010, 7, 1).days_since(&d0), 181);
    assert_eq!(from_ymd(2011, 1, 1).days_since(&d0), 365);
    assert_eq!(from_ymd(2013, 1, 1).days_since(&from_ymd(2012, 1, 1)), 366);
    assert_eq!(d0.days_since(&from_ymd(2010, 2, 1)), -31);
}

#[test]
fn serial_numbers_round_trip() {
    assert_eq!(from_ymd(1970, 1, 1).serial(), 0);
    assert_eq!(from_ymd(1969, 12, 31).serial(), -1);
    assert_eq!(from_ymd(2021, 12, 29).serial(), 18990);
    assert_eq!(Date::from_serial(-719162), Some(from_ymd(1, 1, 1)));
    assert_eq!(Date::from_serial(100_000_000), None);
    assert_eq!(Date::from_serial(i64::MIN), None);
}

#[test]
fn year_frac_parts() {
    let r = year_frac(&from_ymd(2012, 1, 1), &from_ymd(2010, 1, 1));
    assert_eq!(r, YearFraction { years: 2, months: 0, days: 0 });
    let r = year_frac(&from_ymd(2010, 2, 1), &from_ymd(2011, 3, 31));
    assert_eq!(r, YearFraction { years: -1, months: -1, days: -30 });
}

#[test]
fn chronological_order() {
    assert!(from_ymd(2010, 12, 31).is_before(&from_ymd(2011, 1, 1)));
    assert!(!from_ymd(2011, 1, 1).is_before(&from_ymd(2011, 1, 1)));
    assert!(!from_ymd(2011, 2, 1).is_before(&from_ymd(2011, 1, 31)));
}
