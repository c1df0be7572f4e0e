use fcl::bond::{to_cpn_freq, Accrual, BondCfType, BondError, CouponFlow, CpnFreq, FixedBond};
use fcl::calendar::{year_frac, Date};

fn from_ymd(year: i32, month: u32, day: u32) -> Date {
    Date::from_ymd(year, month, day).expect("invalid or out-of-range date")
}

fn bond(value_date: Date, mty_date: Date, cpn_freq: i32) -> FixedBond<f64> {
    FixedBond::new(value_date, mty_date, 100.0, 0.05, cpn_freq).unwrap()
}

// The coupon of one period, as a bond's amounts give it.
fn cpn_value(b: &FixedBond<f64>) -> f64 {
    let factor = match b.cpn_freq {
        CpnFreq::Regular(i) => 1.0 / i as f64,
        CpnFreq::Zero => {
            let y = year_frac(&b.mty_date, &b.value_date);
            y.years as f64 + y.months as f64 / 12.0 + y.days as f64 / 365.0
        }
    };
    b.redem_value * b.cpn_rate * factor
}

fn accrued(b: &FixedBond<f64>, ref_date: &Date, eod: bool) -> f64 {
    match b.accrual(ref_date, eod) {
        Some(a) => cpn_value(b) / a.period_days as f64 * a.days as f64,
        None => 0.0,
    }
}

fn amount(b: &FixedBond<f64>, flow: &CouponFlow) -> f64 {
    let cpn = match flow.coupon {
        Some(a) => cpn_value(b) / a.period_days as f64 * a.days as f64,
        None => 0.0,
    };
    let redem = if flow.redemption { b.redem_value } else { 0.0 };
    cpn + redem
}

#[test]
fn dirty_price() {
    let bond2 = bond(from_ymd(2010, 1, 1), from_ymd(2015, 1, 1), 2);
    let ref_date = from_ymd(2010, 1, 1);
    assert_eq!(accrued(&bond2, &ref_date, true), 0.0);
    let ref_date = from_ymd(2011, 7, 1);
    assert_eq!(100.0 + accrued(&bond2, &ref_date, true), 100.0);
    let ref_date = from_ymd(2011, 1, 1);
    assert_eq!(100.0 + accrued(&bond2, &ref_date, true), 100.0);
    assert_eq!(accrued(&bond2, &ref_date, false), 2.5);

    let bond1 = bond(from_ymd(2010, 1, 1), from_ymd(2015, 1, 1), 1);
    let ref_date = from_ymd(2010, 2, 1);
    assert_eq!(accrued(&bond1, &ref_date, true), 31.0 / 365.0 * 5.0);

    let bond0 = bond(from_ymd(2010, 1, 1), from_ymd(2012, 1, 1), 0);
    let ref_date = from_ymd(2010, 2, 1);
    assert_eq!(accrued(&bond0, &ref_date, true), 31.0 / (365.0 + 365.0) * (5.0 * 2.0));
}

#[test]
fn cashflow() {
    let b = bond(from_ymd(2010, 1, 1), from_ymd(2010, 8, 1), 2);
    let out = b.cashflow(BondCfType::All);
    let values: Vec<(Date, f64)> = out.data.iter().map(|(d, f)| (*d, amount(&b, f))).collect();
    let expect = vec![
        (from_ymd(2010, 7, 1), 2.5),
        (from_ymd(2010, 8, 1), 100.0 + 5.0 * 0.5 * 31.0 / 184.0),
    ];
    assert_eq!(values, expect);
}

#[test]
fn err_when_invalid_freq() {
    let bond = FixedBond::new(from_ymd(2010, 1, 1), from_ymd(2011, 1, 1), 100.0, 0.05, 3);
    assert!(bond.is_err());
}

#[test]
fn invalid_frequency_error_names_the_code() {
    let r = FixedBond::new(from_ymd(2010, 1, 1), from_ymd(2011, 1, 1), 100.0, 0.05, 3);
    assert_eq!(r.unwrap_err(), BondError::InvalidFrequency(3));
    for bad in [-1, 3, 5, 7, 24] {
        assert_eq!(to_cpn_freq(bad), Err(BondError::InvalidFrequency(bad)));
    }
    for good in [1, 2, 4, 6, 12] {
        assert_eq!(to_cpn_freq(good), Ok(CpnFreq::Regular(good)));
    }
    assert_eq!(to_cpn_freq(0), Ok(CpnFreq::Zero));
}

#[test]
fn maturity_must_follow_value_date() {
    let r = FixedBond::new(from_ymd(2018, 1, 1), from_ymd(2015, 1, 1), 100.0, 0.05, 1);
    assert_eq!(r.unwrap_err(), BondError::MaturityNotAfterValueDate);
    let r = FixedBond::new(from_ymd(2015, 1, 1), from_ymd(2015, 1, 1), 100.0, 0.05, 1);
    assert_eq!(r.unwrap_err(), BondError::MaturityNotAfterValueDate);
}

#[test]
fn maturity_too_late_is_refused() {
    let r = FixedBond::new(from_ymd(2010, 1, 1), from_ymd(262141, 1, 1), 100.0, 0.05, 1);
    assert_eq!(r.unwrap_err(), BondError::MaturityOutOfRange);
    assert!(FixedBond::new(from_ymd(2010, 1, 1), from_ymd(262140, 12, 31), 100.0, 0.05, 12).is_ok());
}

#[test]
fn none_if_xirr_fail() {
    let b = FixedBond::new(from_ymd(2012, 1, 1), from_ymd(2015, 1, 1), 100.0, 0.05, 1).unwrap();
    let ref_date = from_ymd(2016, 1, 1);
    let res = b.cashflow_after(&ref_date);
    assert!(res.is_none());
    let b = FixedBond::new(from_ymd(2018, 1, 1), from_ymd(2015, 1, 1), 100.0, 0.05, 1);
    assert!(b.is_err());
}

#[test]
fn nothing_left_to_value_at_or_after_maturity() {
    let b = bond(from_ymd(2012, 1, 1), from_ymd(2015, 1, 1), 1);
    assert!(b.cashflow_after(&from_ymd(2016, 1, 1)).is_none());
    assert!(b.cashflow_after(&from_ymd(2015, 1, 1)).is_none());
    let left = b.cashflow_after(&from_ymd(2014, 12, 31)).unwrap();
    assert_eq!(left.dates(), vec![from_ymd(2015, 1, 1)]);
    let left = b.cashflow_after(&from_ymd(2013, 1, 1)).unwrap();
    assert_eq!(left.dates(), vec![from_ymd(2014, 1, 1), from_ymd(2015, 1, 1)]);
}

#[test]
fn coupon_dates_adjusted_and_not() {
    let b = bond(from_ymd(2010, 1, 31), from_ymd(2011, 5, 15), 4);
    assert_eq!(
        b.cpn_dates(true),
        vec![
            from_ymd(2010, 1, 31),
            from_ymd(2010, 4, 30),
            from_ymd(2010, 7, 30),
            from_ymd(2010, 10, 30),
            from_ymd(2011, 1, 30),
            from_ymd(2011, 4, 30),
            from_ymd(2011, 5, 15),
        ]
    );
    assert_eq!(*b.cpn_dates(false).last().unwrap(), from_ymd(2011, 7, 30));
    assert_eq!(b.nxt_cpn_date(&from_ymd(2011, 4, 30), true), Some(from_ymd(2011, 5, 15)));
    assert_eq!(b.nxt_cpn_date(&from_ymd(2011, 4, 30), false), Some(from_ymd(2011, 7, 30)));
    assert_eq!(b.nxt_cpn_date(&from_ymd(2011, 5, 15), false), None);

    let z = bond(from_ymd(2010, 1, 1), from_ymd(2015, 1, 1), 0);
    assert_eq!(z.cpn_dates(true), vec![from_ymd(2010, 1, 1), from_ymd(2015, 1, 1)]);
}

#[test]
fn accrual_brackets() {
    let b = bond(from_ymd(2010, 1, 1), from_ymd(2010, 8, 1), 2);
    assert_eq!(b.accrual(&from_ymd(2010, 7, 1), false), Some(Accrual { days: 181, period_days: 181 }));
    assert_eq!(b.accrual(&from_ymd(2010, 7, 1), true), None);
    assert_eq!(b.accrual(&from_ymd(2010, 7, 2), true), Some(Accrual { days: 1, period_days: 184 }));
    assert_eq!(b.accrual(&from_ymd(2010, 8, 1), false), Some(Accrual { days: 31, period_days: 184 }));
    assert_eq!(b.accrual(&from_ymd(2010, 8, 1), true), None);
    assert_eq!(b.accrual(&from_ymd(2010, 8, 2), false), None);
    assert_eq!(b.accrual(&from_ymd(2010, 1, 1), false), None);
}

#[test]
fn cashflow_kinds() {
    let b = bond(from_ymd(2010, 1, 1), from_ymd(2011, 1, 1), 2);
    let coupon = b.cashflow(BondCfType::Coupon);
    let redem = b.cashflow(BondCfType::Redem);
    let full = b.cashflow(BondCfType::All);
    let c = Some(Accrual { days: 181, period_days: 181 });
    let c2 = Some(Accrual { days: 184, period_days: 184 });
    assert_eq!(
        coupon.data,
        vec![
            (from_ymd(2010, 7, 1), CouponFlow { coupon: c, redemption: false }),
            (from_ymd(2011, 1, 1), CouponFlow { coupon: c2, redemption: false }),
        ]
    );
    assert_eq!(
        redem.data,
        vec![
            (from_ymd(2010, 7, 1), CouponFlow { coupon: None, redemption: false }),
            (from_ymd(2011, 1, 1), CouponFlow { coupon: None, redemption: true }),
        ]
    );
    assert_eq!(
        full.data,
        vec![
            (from_ymd(2010, 7, 1), CouponFlow { coupon: c, redemption: false }),
            (from_ymd(2011, 1, 1), CouponFlow { coupon: c2, redemption: true }),
        ]
    );
}
