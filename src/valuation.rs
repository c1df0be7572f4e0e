//! The checks that a dated schedule of amounts must pass before its present
//! value or internal rate of return is computed.

use vstd::prelude::*;
use crate::calendar::{Date, date_lt};

verus! {

/// Why a schedule of amounts and dates was refused.
#[derive(Clone, Copy, Debug, PartialEq, Eq, Structural)]
pub enum ScheduleError {
    /// There are not as many amounts as dates.
    LengthMismatch,
    /// Some date comes before the first one.
    FirstNotEarliest,
}

/// No date of `s` comes before its first.
pub open spec fn first_is_earliest(s: Seq<Date>) -> bool {
    forall|i: int| 0 <= i < s.len() ==> !date_lt(#[trigger] s[i], s[0])
}

/// Amounts with their dates, of equal length, the first date the earliest.
/// An empty schedule passes.
pub struct CheckedCashflowSchedule<'a, V> {
    pub values: &'a [V],
    pub dates: &'a [Date],
}

impl<'a, V> CheckedCashflowSchedule<'a, V> {
    /// Checks `values` and `dates` and keeps them together.
    pub fn new(values: &'a [V], dates: &'a [Date]) -> (r: Result<CheckedCashflowSchedule<'a, V>, ScheduleError>)
        ensures
            values@.len() != dates@.len() ==> (r matches Err(e) && e == ScheduleError::LengthMismatch),
            values@.len() == dates@.len() && !first_is_earliest(dates@) ==> (r matches Err(e) && e
                == ScheduleError::FirstNotEarliest),
            values@.len() == dates@.len() && first_is_earliest(dates@) ==> (r matches Ok(c) && c.values@
                == values@ && c.dates@ == dates@),
    {
        if values.len() != dates.len() {
            return Err(ScheduleError::LengthMismatch);
        }
        let mut i: usize = 1;
        while i < dates.len()
            invariant
                1 <= i,
                values@.len() == dates@.len(),
                forall|j: int| 0 <= j < i && j < dates@.len() ==> !date_lt(#[trigger] dates@[j], dates@[0]),
            decreases dates@.len() - i,
        {
            if dates[i].is_before(&dates[0]) {
                return Err(ScheduleError::FirstNotEarliest);
            }
            i += 1;
        }
        Ok(CheckedCashflowSchedule { values, dates })
    }
}

} // verus!
