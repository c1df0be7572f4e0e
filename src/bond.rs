//! Fixed-coupon bonds: coupon frequency, coupon schedule, accrual periods and
//! the dated flows of coupons and redemption.

use vstd::prelude::*;
use crate::cashflow::{Cashflow, entries_after, lemma_entries_after};
use crate::calendar::{
    Date, MAX_YEAR, add_months, add_months_in_range, add_months_spec, date_le, date_lt, days_in_month,
};

verus! {

/// Which flows of a bond a cashflow lists.
#[derive(Clone, Copy, Debug, PartialEq, Eq, Structural)]
pub enum BondCfType {
    Coupon,
    Redem,
    All,
}

/// Coupons per year, or a single accrual period ending at maturity.
#[derive(Clone, Copy, Debug, PartialEq, Eq, Structural)]
pub enum CpnFreq {
    Regular(i32),
    Zero,
}

/// Why a bond could not be constructed.
#[derive(Clone, Copy, Debug, PartialEq, Eq, Structural)]
pub enum BondError {
    /// The coupon frequency is none of 0, 1, 2, 4, 6 and 12.
    InvalidFrequency(i32),
    /// The maturity date is not after the value date.
    MaturityNotAfterValueDate,
    /// The maturity year is too late for the coupon dates to be computed.
    MaturityOutOfRange,
}

pub open spec fn regular_frequency(n: int) -> bool {
    n == 1 || n == 2 || n == 4 || n == 6 || n == 12
}

impl CpnFreq {
    pub open spec fn wf(self) -> bool {
        match self {
            CpnFreq::Regular(n) => regular_frequency(n as int),
            CpnFreq::Zero => true,
        }
    }
}

/// The coupon frequency that an integer code names: 1, 2, 4, 6 or 12 coupons
/// a year, or 0 for a zero-coupon bond.
pub fn to_cpn_freq(cpn_freq: i32) -> (r: Result<CpnFreq, BondError>)
    ensures
        regular_frequency(cpn_freq as int) ==> r == Ok::<CpnFreq, BondError>(CpnFreq::Regular(cpn_freq)),
        cpn_freq == 0 ==> r == Ok::<CpnFreq, BondError>(CpnFreq::Zero),
        !regular_frequency(cpn_freq as int) && cpn_freq != 0 ==> r == Err::<CpnFreq, BondError>(
            BondError::InvalidFrequency(cpn_freq),
        ),
{
    match cpn_freq {
        1 | 2 | 4 | 6 | 12 => Ok(CpnFreq::Regular(cpn_freq)),
        0 => Ok(CpnFreq::Zero),
        _ => Err(BondError::InvalidFrequency(cpn_freq)),
    }
}

/// A fixed-coupon bond. The amounts are of any type `A`: the schedule does
/// not depend on them.
#[derive(Debug)]
pub struct FixedBond<A> {
    pub value_date: Date,
    pub mty_date: Date,
    pub redem_value: A,
    pub cpn_rate: A,
    pub cpn_freq: CpnFreq,
}

/// The maturity year leaves room for every coupon date, and for the first
/// day of the month after it, within the supported years.
pub open spec fn maturity_year_in_range(d: Date) -> bool {
    d.year <= MAX_YEAR - 2
}

impl<A> FixedBond<A> {
    pub open spec fn wf(&self) -> bool {
        &&& self.value_date.wf()
        &&& self.mty_date.wf()
        &&& maturity_year_in_range(self.mty_date)
        &&& date_lt(self.value_date, self.mty_date)
        &&& self.cpn_freq.wf()
    }

    /// The coupon date that follows `d`: none from maturity on; `12 / n`
    /// months later for `n` coupons a year; maturity for a zero-coupon bond.
    /// With `adjust`, a date past maturity is brought back to maturity.
    pub open spec fn nxt_spec(&self, d: Date, adjust: bool) -> Option<Date> {
        if !date_lt(d, self.mty_date) {
            None
        } else {
            let raw = match self.cpn_freq {
                CpnFreq::Regular(n) => add_months_spec(d, 12int / (n as int)),
                CpnFreq::Zero => self.mty_date,
            };
            if adjust && date_lt(self.mty_date, raw) {
                Some(self.mty_date)
            } else {
                Some(raw)
            }
        }
    }

    /// Steps left before a schedule that has reached `d` ends.
    pub open spec fn steps_left(&self, d: Date) -> int {
        if date_lt(d, self.mty_date) {
            (self.mty_date.month_index() - d.month_index()) * 32 + 32 - d.day
        } else {
            0
        }
    }

    /// Builds a bond from its dates, amounts and coupon frequency code.
    pub fn new(value_date: Date, mty_date: Date, redem_value: A, cpn_rate: A, cpn_freq: i32) -> (r: Result<FixedBond<A>, BondError>)
        requires
            value_date.wf(),
            mty_date.wf(),
        ensures
            !regular_frequency(cpn_freq as int) && cpn_freq != 0 ==> r == Err::<FixedBond<A>, BondError>(
                BondError::InvalidFrequency(cpn_freq),
            ),
            (regular_frequency(cpn_freq as int) || cpn_freq == 0) && !date_lt(value_date, mty_date)
                ==> r == Err::<FixedBond<A>, BondError>(BondError::MaturityNotAfterValueDate),
            (regular_frequency(cpn_freq as int) || cpn_freq == 0) && date_lt(value_date, mty_date)
                && !maturity_year_in_range(mty_date) ==> r == Err::<FixedBond<A>, BondError>(
                BondError::MaturityOutOfRange,
            ),
            (regular_frequency(cpn_freq as int) || cpn_freq == 0) && date_lt(value_date, mty_date)
                && maturity_year_in_range(mty_date) ==> (r matches Ok(b) && b.wf() && b.value_date == value_date && b.mty_date == mty_date
                && b.redem_value == redem_value && b.cpn_rate == cpn_rate
                && (cpn_freq == 0 ==> b.cpn_freq == CpnFreq::Zero)
                && (cpn_freq != 0 ==> b.cpn_freq == CpnFreq::Regular(cpn_freq))),
    {
        let freq = match to_cpn_freq(cpn_freq) {
            Ok(f) => f,
            Err(e) => {
                return Err(e);
            },
        };
        if !value_date.is_before(&mty_date) {
            return Err(BondError::MaturityNotAfterValueDate);
        }
        if mty_date.year > MAX_YEAR - 2 {
            return Err(BondError::MaturityOutOfRange);
        }
        Ok(FixedBond { value_date, mty_date, redem_value, cpn_rate, cpn_freq: freq })
    }

    /// See `nxt_spec`.
    pub fn nxt_cpn_date(&self, ref_date: &Date, adjust: bool) -> (r: Option<Date>)
        requires
            self.wf(),
            ref_date.wf(),
        ensures
            r == self.nxt_spec(*ref_date, adjust),
            r matches Some(d) ==> d.wf() && date_lt(*ref_date, d) && self.steps_left(d) < self.steps_left(*ref_date),
            adjust ==> (r matches Some(d) ==> date_le(d, self.mty_date)),
    {
        if !ref_date.is_before(&self.mty_date) {
            return None;
        }
        let raw = match self.cpn_freq {
            CpnFreq::Regular(n) => {
                let step: i32 = 12 / n;
                proof {
                    lemma_month_index_shift(*ref_date, step as int);
                }
                add_months(ref_date, step)
            },
            CpnFreq::Zero => self.mty_date,
        };
        if adjust && self.mty_date.is_before(&raw) {
            Some(self.mty_date)
        } else {
            Some(raw)
        }
    }
}

impl<A> FixedBond<A> {
    /// `s` runs from the value date through successive coupon dates until
    /// `nxt_spec` gives none.
    pub open spec fn is_schedule(&self, s: Seq<Date>, adjust: bool) -> bool {
        &&& s.len() >= 1
        &&& s[0] == self.value_date
        &&& forall|i: int| 0 <= i < s.len() - 1 ==> self.nxt_spec(#[trigger] s[i], adjust) == Some(s[i + 1])
        &&& self.nxt_spec(s.last(), adjust) is None
    }

    /// The coupon dates from the value date on (see `is_schedule`, which holds
    /// of one sequence at most).
    pub open spec fn schedule(&self, adjust: bool) -> Seq<Date> {
        choose|s: Seq<Date>| self.is_schedule(s, adjust)
    }

    /// The coupon dates from the value date to maturity, the value date first.
    pub fn cpn_dates(&self, adjust: bool) -> (r: Vec<Date>)
        requires
            self.wf(),
        ensures
            self.is_schedule(r@, adjust),
            r@ == self.schedule(adjust),
            forall|i: int| 0 <= i < r@.len() ==> (#[trigger] r@[i]).wf(),
            forall|i: int, j: int| 0 <= i < j < r@.len() ==> date_lt(#[trigger] r@[i], #[trigger] r@[j]),
    {
        let mut dates: Vec<Date> = Vec::new();
        dates.push(self.value_date);
        let mut ref_date = self.value_date;
        loop
            invariant
                self.wf(),
                ref_date.wf(),
                dates@.len() >= 1,
                dates@[0] == self.value_date,
                dates@.last() == ref_date,
                forall|i: int| 0 <= i < dates@.len() - 1 ==> self.nxt_spec(#[trigger] dates@[i], adjust) == Some(dates@[i + 1]),
                forall|i: int| 0 <= i < dates@.len() ==> (#[trigger] dates@[i]).wf(),
                forall|i: int, j: int| 0 <= i < j < dates@.len() ==> date_lt(#[trigger] dates@[i], #[trigger] dates@[j]),
            ensures
                self.is_schedule(dates@, adjust),
                forall|i: int| 0 <= i < dates@.len() ==> (#[trigger] dates@[i]).wf(),
                forall|i: int, j: int| 0 <= i < j < dates@.len() ==> date_lt(#[trigger] dates@[i], #[trigger] dates@[j]),
            decreases self.steps_left(ref_date),
        {
            match self.nxt_cpn_date(&ref_date, adjust) {
                Some(date) => {
                    let ghost old_dates = dates@;
                    dates.push(date);
                    assert forall|i: int| 0 <= i < dates@.len() - 1 implies self.nxt_spec(#[trigger] dates@[i], adjust) == Some(dates@[i + 1]) by {
                        if i < old_dates.len() - 1 {
                            assert(dates@[i] == old_dates[i] && dates@[i + 1] == old_dates[i + 1]);
                        } else {
                            assert(dates@[i] == old_dates.last());
                        }
                    }
                    assert forall|i: int, j: int| 0 <= i < j < dates@.len() implies date_lt(#[trigger] dates@[i], #[trigger] dates@[j]) by {
                        if j < old_dates.len() {
                            assert(dates@[i] == old_dates[i] && dates@[j] == old_dates[j]);
                        } else {
                            assert(dates@[i] == old_dates[i]);
                            assert(date_le(old_dates[i], ref_date));
                        }
                    }
                    ref_date = date;
                },
                None => {
                    break;
                },
            }
        }
        proof {
            self.lemma_schedule_unique(dates@, self.schedule(adjust), adjust);
        }
        dates
    }

    /// At most one sequence is a schedule.
    pub proof fn lemma_schedule_unique(&self, s: Seq<Date>, t: Seq<Date>, adjust: bool)
        requires
            self.is_schedule(s, adjust),
        ensures
            self.is_schedule(t, adjust) ==> t == s,
            self.is_schedule(self.schedule(adjust), adjust),
    {
        if self.is_schedule(t, adjust) {
            assert forall|i: int| 0 <= i < s.len() && i < t.len() implies s[i] == t[i] by {
                self.lemma_schedule_prefix(s, t, adjust, i);
            }
            if s.len() < t.len() {
                assert(s[s.len() - 1] == t[s.len() - 1]);
                assert(self.nxt_spec(t[s.len() - 1], adjust) == Some(t[s.len() as int]));
            } else if t.len() < s.len() {
                assert(s[t.len() - 1] == t[t.len() - 1]);
                assert(self.nxt_spec(s[t.len() - 1], adjust) == Some(s[t.len() as int]));
            }
            assert(s =~= t);
        }
    }

    proof fn lemma_schedule_prefix(&self, s: Seq<Date>, t: Seq<Date>, adjust: bool, i: int)
        requires
            self.is_schedule(s, adjust),
            self.is_schedule(t, adjust),
            0 <= i < s.len(),
            i < t.len(),
        ensures
            s[i] == t[i],
        decreases i,
    {
        if i > 0 {
            self.lemma_schedule_prefix(s, t, adjust, i - 1);
            assert(self.nxt_spec(s[i - 1], adjust) == Some(s[i]));
            assert(self.nxt_spec(t[i - 1], adjust) == Some(t[i]));
        }
    }
}

/// Days accrued since the start of a coupon period, and the days of that
/// whole period; the coupon accrues in proportion `days / period_days`.
#[derive(Clone, Copy, Debug, PartialEq, Eq, Structural)]
pub struct Accrual {
    pub days: i64,
    pub period_days: i64,
}

/// The coupon and redemption parts of one dated flow of a bond: the accrual of
/// the coupon paid, if the flow holds one, and whether the redemption is paid.
#[derive(Clone, Copy, Debug, PartialEq, Eq, Structural)]
pub struct CouponFlow {
    pub coupon: Option<Accrual>,
    pub redemption: bool,
}

/// The position in an ascending `s` of the first date on or after `r`, where
/// an earlier date is before `r`.
pub open spec fn bracket_index(s: Seq<Date>, r: Date) -> int {
    choose|i: int| 1 <= i < s.len() && date_lt(s[i - 1], r) && date_le(r, s[i])
}

impl<A> FixedBond<A> {
    /// The accrual at `r`: none outside (value date, maturity], nor at the end
    /// of a day (`eod`) on which a coupon or the redemption is paid; otherwise
    /// the days from the unadjusted coupon date before `r` up to `r`, over the
    /// days of that coupon period.
    pub open spec fn accrual_spec(&self, r: Date, eod: bool) -> Option<Accrual> {
        if date_lt(self.mty_date, r) || date_le(r, self.value_date) || (eod && r == self.mty_date) {
            None
        } else {
            let s = self.schedule(false);
            let i = bracket_index(s, r);
            if eod && s[i] == r {
                None
            } else {
                Some(
                    Accrual {
                        days: (r.day_number() - s[i - 1].day_number()) as i64,
                        period_days: (s[i].day_number() - s[i - 1].day_number()) as i64,
                    },
                )
            }
        }
    }

    pub open spec fn flow_spec(&self, d: Date, kind: BondCfType) -> CouponFlow {
        CouponFlow {
            coupon: if kind == BondCfType::Redem {
                None
            } else {
                self.accrual_spec(d, false)
            },
            redemption: kind != BondCfType::Coupon && d == self.mty_date,
        }
    }

    /// One flow for each adjusted coupon date after the value date.
    pub open spec fn cashflow_spec(&self, kind: BondCfType) -> Seq<(Date, CouponFlow)> {
        self.schedule(true).drop_first().map(|k: int, d: Date| (d, self.flow_spec(d, kind)))
    }

    /// See `accrual_spec`.
    pub fn accrual(&self, ref_date: &Date, eod: bool) -> (r: Option<Accrual>)
        requires
            self.wf(),
            ref_date.wf(),
        ensures
            r == self.accrual_spec(*ref_date, eod),
    {
        if self.mty_date.is_before(ref_date) || !self.value_date.is_before(ref_date) {
            return None;
        }
        if eod && *ref_date == self.mty_date {
            return None;
        }
        let s = self.cpn_dates(false);
        let mut i: usize = 1;
        while i < s.len() && s[i].is_before(ref_date)
            invariant
                1 <= i <= s@.len(),
                s@.len() >= 1,
                s@[0] == self.value_date,
                date_lt(self.value_date, *ref_date),
                forall|j: int| 0 <= j < i ==> date_lt(#[trigger] s@[j], *ref_date),
            decreases s@.len() - i,
        {
            i += 1;
        }
        proof {
            let t = s@;
            assert(!date_lt(t.last(), self.mty_date));
            assert(i < t.len());
            let k = i as int;
            assert(1 <= k < t.len() && date_lt(t[k - 1], *ref_date) && date_le(*ref_date, t[k]));
            let c = bracket_index(t, *ref_date);
            if c < k {
                assert(date_lt(t[c], *ref_date));
            } else if c > k {
                assert(date_lt(t[k], t[c - 1]) || k == c - 1);
            }
            assert(c == k);
        }
        if eod && s[i] == *ref_date {
            return None;
        }
        let days = ref_date.days_since(&s[i - 1]);
        let period_days = s[i].days_since(&s[i - 1]);
        Some(Accrual { days, period_days })
    }

    /// The adjusted schedule ends at maturity and holds at least one date
    /// after the value date.
    pub proof fn lemma_adjusted_schedule_end(&self)
        requires
            self.wf(),
            self.is_schedule(self.schedule(true), true),
        ensures
            self.schedule(true).len() >= 2,
            self.schedule(true).last() == self.mty_date,
    {
        let s = self.schedule(true);
        if s.len() == 1 {
            assert(self.nxt_spec(s[0], true) is Some);
        }
        let n = s.len() - 2;
        assert(self.nxt_spec(s[n], true) == Some(s[n + 1]));
        assert(!date_lt(s.last(), self.mty_date));
    }

    /// The bond's dated flows of the given kind, one for each adjusted coupon
    /// date after the value date: the coupon accrued over its period and, on
    /// maturity, the redemption.
    pub fn cashflow(&self, cftype: BondCfType) -> (r: Cashflow<CouponFlow>)
        requires
            self.wf(),
        ensures
            r.data@ == self.cashflow_spec(cftype),
            r.wf(),
            self.is_schedule(self.schedule(true), true),
    {
        let dates = self.cpn_dates(true);
        let mut data: Vec<(Date, CouponFlow)> = Vec::new();
        let mut i: usize = 1;
        while i < dates.len()
            invariant
                self.wf(),
                1 <= i <= dates@.len(),
                dates@ == self.schedule(true),
                data@.len() == i - 1,
                forall|k: int| 0 <= k < dates@.len() ==> (#[trigger] dates@[k]).wf(),
                forall|k: int, j: int| 0 <= k < j < dates@.len() ==> date_lt(#[trigger] dates@[k], #[trigger] dates@[j]),
                forall|k: int| 0 <= k < i - 1 ==> #[trigger] data@[k] == (dates@[k + 1], self.flow_spec(dates@[k + 1], cftype)),
            decreases dates@.len() - i,
        {
            let date = dates[i];
            let coupon = if cftype == BondCfType::Redem {
                None
            } else {
                self.accrual(&date, false)
            };
            let redemption = cftype != BondCfType::Coupon && date == self.mty_date;
            data.push((date, CouponFlow { coupon, redemption }));
            i += 1;
        }
        proof {
            let spec = self.cashflow_spec(cftype);
            assert(data@ =~= spec);
            assert forall|a: int, b: int| 0 <= a < b < data@.len() implies date_lt(#[trigger] data@[a].0, #[trigger] data@[b].0) by {
                assert(data@[a].0 == dates@[a + 1] && data@[b].0 == dates@[b + 1]);
            }
            assert forall|a: int| 0 <= a < data@.len() implies (#[trigger] data@[a]).0.wf() by {
                assert(data@[a].0 == dates@[a + 1]);
            }
        }
        Cashflow { data }
    }

    /// The flows still to come after `ref_date`; none once `ref_date` has
    /// reached the last flow, which is paid at maturity.
    pub fn cashflow_after(&self, ref_date: &Date) -> (r: Option<Cashflow<CouponFlow>>)
        requires
            self.wf(),
            ref_date.wf(),
        ensures
            self.cashflow_spec(BondCfType::All).len() >= 1,
            self.cashflow_spec(BondCfType::All).last().0 == self.mty_date,
            r.is_none() <==> !date_lt(*ref_date, self.cashflow_spec(BondCfType::All).last().0),
            r matches Some(c) ==> c.wf() && c.data@.len() >= 1 && c.data@ == entries_after(
                self.cashflow_spec(BondCfType::All),
                *ref_date,
            ),
    {
        let flows = self.cashflow(BondCfType::All);
        let ghost full = self.cashflow_spec(BondCfType::All);
        proof {
            self.lemma_adjusted_schedule_end();
            assert(full.last().0 == self.schedule(true).last());
        }
        if !ref_date.is_before(&self.mty_date) {
            return None;
        }
        proof {
            lemma_entries_after(full, *ref_date);
        }
        Some(flows.cf(ref_date, None))
    }
}

/// Shifting by `n` months moves the month index by `n`.
pub proof fn lemma_month_index_shift(d: Date, n: int)
    requires
        d.wf(),
        add_months_in_range(d, n),
    ensures
        add_months_spec(d, n).month_index() == d.month_index() + n,
        1 <= add_months_spec(d, n).month <= 12,
        days_in_month(add_months_spec(d, n).year as int, add_months_spec(d, n).month as int) >= 28,
{
    let k = d.month_index() + n;
    let y = k / 12;
    let m = k % 12 + 1;
    assert(k == 12 * y + (m - 1));
}

} // verus!
