//! Calendar arithmetic, coupon schedules, cashflow containers and the
//! bookkeeping of daily return series for a fixed-income analytics engine.

pub mod calendar;
pub mod cashflow;
pub mod bond;
pub mod valuation;
pub mod rtn;

