//! Daily return series: sparse (date, market value, profit and loss)
//! observations made dense over every day of their span, the lookup of day
//! windows, and the rules that the return formulas share.

use vstd::prelude::*;

verus! {

/// Why a return series or one of its windows was refused.
#[derive(Clone, Copy, Debug, PartialEq, Eq, Structural)]
pub enum RtnError {
    /// The input sequences differ in length.
    LengthMismatch,
    /// There is no observation.
    Empty,
    /// Two observations share a date.
    DuplicateDate,
    /// A window's end has no day in the series.
    OutOfRange,
    /// A window starts after it ends.
    FromAfterTo,
}

/// All of `lens` are equal.
pub open spec fn same_lengths(lens: Seq<usize>) -> bool {
    forall|i: int| 0 <= i < lens.len() ==> #[trigger] lens[i] == lens[0]
}

/// Whether the lengths all agree with the first.
pub fn check_len(lens: &[usize]) -> (r: bool)
    ensures
        r == same_lengths(lens@),
{
    let mut i: usize = 0;
    while i < lens.len()
        invariant
            i <= lens@.len(),
            forall|k: int| 0 <= k < i ==> #[trigger] lens@[k] == lens@[0],
        decreases lens@.len() - i,
    {
        if lens[i] != lens[0] {
            return false;
        }
        i += 1;
    }
    true
}

pub open spec fn distinct_dates(dates: Seq<i32>) -> bool {
    forall|i: int, j: int| 0 <= i < j < dates.len() ==> dates[i] != dates[j]
}

pub open spec fn observed_at(dates: Seq<i32>, d: int) -> bool {
    exists|k: int| 0 <= k < dates.len() && dates[k] == d
}

/// The position of the observation dated `d`.
pub open spec fn observation(dates: Seq<i32>, d: int) -> int {
    choose|k: int| 0 <= k < dates.len() && dates[k] == d
}

/// The market value on day `lo + j`: the one observed that day, else the one
/// of the latest earlier day observed.
pub open spec fn filled_mv<V>(dates: Seq<i32>, mvs: Seq<V>, lo: int, j: nat) -> V
    decreases j,
{
    if observed_at(dates, lo + j) || j == 0 {
        mvs[observation(dates, lo + j)]
    } else {
        filled_mv(dates, mvs, lo, (j - 1) as nat)
    }
}

/// The profit and loss on day `lo + j`: the one observed that day, else `zero`.
pub open spec fn filled_pl<V>(dates: Seq<i32>, pls: Seq<V>, lo: int, j: nat, zero: V) -> V {
    if observed_at(dates, lo + j) {
        pls[observation(dates, lo + j)]
    } else {
        zero
    }
}

/// A daily series: a market value and a profit and loss for each day of a run
/// of consecutive days.
#[derive(Debug)]
pub struct Rtn<V> {
    pub dates: Vec<i32>,
    pub mvs: Vec<V>,
    pub pls: Vec<V>,
}

impl<V> Rtn<V> {
    pub open spec fn wf(&self) -> bool {
        &&& self.dates@.len() >= 1
        &&& self.mvs@.len() == self.dates@.len()
        &&& self.pls@.len() == self.dates@.len()
        &&& forall|j: int| 0 <= j < self.dates@.len() ==> #[trigger] self.dates@[j] == self.dates@[0] + j
    }

    /// The series of every day from the earliest observation to the latest:
    /// an unobserved day carries the market value of the latest earlier
    /// observation and a profit and loss of `zero`.
    pub fn new(dates: Vec<i32>, mvs: Vec<V>, pls: Vec<V>, zero: V) -> (r: Result<Rtn<V>, RtnError>)
        where
            V: Copy,
        requires
            forall|a: int, b: int|
                0 <= a < dates@.len() && 0 <= b < dates@.len() ==> #[trigger] dates@[a] - #[trigger] dates@[b]
                    < usize::MAX,
        ensures
            dates@.len() != mvs@.len() || dates@.len() != pls@.len() ==> (r matches Err(e) && e
                == RtnError::LengthMismatch),
            dates@.len() == mvs@.len() && dates@.len() == pls@.len() && dates@.len() == 0 ==> (r matches Err(
                e,
            ) && e == RtnError::Empty),
            dates@.len() == mvs@.len() && dates@.len() == pls@.len() && dates@.len() > 0 && !distinct_dates(dates@)
                ==> (r matches Err(e) && e == RtnError::DuplicateDate),
            dates@.len() == mvs@.len() && dates@.len() == pls@.len() && dates@.len() > 0 && distinct_dates(dates@)
                ==> (r matches Ok(s) && s.wf() && observed_at(dates@, s.dates@[0] as int) && observed_at(
                dates@,
                s.dates@.last() as int,
            ) && (forall|k: int| 0 <= k < dates@.len() ==> s.dates@[0] <= #[trigger] dates@[k] <= s.dates@.last())
                && (forall|j: int| 0 <= j < s.dates@.len() ==> #[trigger] s.mvs@[j] == filled_mv(dates@, mvs@, s.dates@[0] as int, j as nat))
                && (forall|j: int| 0 <= j < s.dates@.len() ==> #[trigger] s.pls@[j] == filled_pl(dates@, pls@, s.dates@[0] as int, j as nat, zero))),
    {
        let n = dates.len();
        if !check_len(&vec![n, mvs.len(), pls.len()]) {
            return Err(RtnError::LengthMismatch);
        }
        assert(seq![n, mvs.len(), pls.len()][1] == n && seq![n, mvs.len(), pls.len()][2] == n);
        if n == 0 {
            return Err(RtnError::Empty);
        }
        let mut lo: i32 = dates[0];
        let mut hi: i32 = dates[0];
        let mut i: usize = 1;
        while i < n
            invariant
                n == dates@.len(),
                1 <= i <= n,
                observed_at(dates@, lo as int),
                observed_at(dates@, hi as int),
                forall|k: int| 0 <= k < i ==> lo <= #[trigger] dates@[k] <= hi,
            decreases n - i,
        {
            if dates[i] < lo {
                lo = dates[i];
            }
            if dates[i] > hi {
                hi = dates[i];
            }
            i += 1;
        }
        proof {
            let a = choose|a: int| 0 <= a < dates@.len() && dates@[a] == hi;
            let b = choose|b: int| 0 <= b < dates@.len() && dates@[b] == lo;
            assert(dates@[a] - dates@[b] < usize::MAX);
        }
        let span: usize = (hi as i64 - lo as i64 + 1) as usize;
        let mut slot: Vec<Option<usize>> = Vec::new();
        let mut j: usize = 0;
        while j < span
            invariant
                j <= span,
                slot@.len() == j,
                forall|p: int| 0 <= p < j ==> #[trigger] slot@[p] is None,
            decreases span - j,
        {
            slot.push(None);
            j += 1;
        }
        let mut k: usize = 0;
        while k < n
            invariant
                n == dates@.len(),
                n == mvs@.len(),
                n == pls@.len(),
                k <= n,
                span == hi - lo + 1,
                slot@.len() == span,
                forall|q: int| 0 <= q < n ==> lo <= #[trigger] dates@[q] <= hi,
                distinct_dates(dates@.take(k as int)),
                forall|p: int| 0 <= p < span ==> (#[trigger] slot@[p] matches Some(q) ==> q < k && dates@[q as int] == lo + p),
                forall|q: int| 0 <= q < k ==> #[trigger] slot@[dates@[q] - lo] == Some(q as usize),
            decreases n - k,
        {
            let p: usize = (dates[k] as i64 - lo as i64) as usize;
            if slot[p].is_some() {
                proof {
                    let q = slot@[p as int]->0 as int;
                    assert(dates@[q] == dates@[k as int]);
                    assert(!distinct_dates(dates@));
                }
                return Err(RtnError::DuplicateDate);
            }
            slot.set(p, Some(k));
            proof {
                let t = dates@.take(k + 1);
                assert forall|a: int, b: int| 0 <= a < b < t.len() implies #[trigger] t[a] != #[trigger] t[b] by {
                    if b == k {
                        assert(slot@[dates@[a] - lo] == Some(a as usize));
                    } else {
                        assert(dates@.take(k as int)[a] == dates@[a] && dates@.take(k as int)[b] == dates@[b]);
                    }
                }
            }
            k += 1;
        }
        assert(dates@.take(n as int) == dates@);
        // Every day of the span that was observed holds its observation.
        proof {
            assert forall|p: int| 0 <= p < span implies (observed_at(dates@, lo + p) <==> #[trigger] slot@[p] is Some) by {
                if observed_at(dates@, lo + p) {
                    let q = choose|q: int| 0 <= q < dates@.len() && dates@[q] == lo + p;
                    assert(slot@[dates@[q] - lo] == Some(q as usize));
                }
            }
            assert forall|p: int| 0 <= p < span && #[trigger] slot@[p] is Some implies observation(dates@, lo + p) == slot@[p]->0 as int by {
                let q = slot@[p]->0 as int;
                let c = observation(dates@, lo + p);
                assert(dates@[q] == lo + p);
                assert(dates@[c] == lo + p);
                if c != q {
                    if c < q {
                        assert(dates@[c] != dates@[q]);
                    } else {
                        assert(dates@[q] != dates@[c]);
                    }
                }
            }
            assert(slot@[0] is Some);
        }
        let mut out_dates: Vec<i32> = Vec::new();
        let mut out_mvs: Vec<V> = Vec::new();
        let mut out_pls: Vec<V> = Vec::new();
        let first = slot[0].unwrap();
        let mut last_mv: V = mvs[first];
        let mut j: usize = 0;
        while j < span
            invariant
                n == dates@.len(),
                n == mvs@.len(),
                n == pls@.len(),
                j <= span,
                span == hi - lo + 1,
                slot@.len() == span,
                forall|p: int| 0 <= p < span ==> (#[trigger] slot@[p] matches Some(q) ==> q < n),
                forall|p: int| 0 <= p < span ==> (observed_at(dates@, lo + p) <==> #[trigger] slot@[p] is Some),
                forall|p: int| 0 <= p < span && #[trigger] slot@[p] is Some ==> observation(dates@, lo + p) == slot@[p]->0 as int,
                slot@[0] is Some,
                out_dates@.len() == j,
                out_mvs@.len() == j,
                out_pls@.len() == j,
                j == 0 ==> last_mv == mvs@[slot@[0]->0 as int],
                j > 0 ==> last_mv == filled_mv(dates@, mvs@, lo as int, (j - 1) as nat),
                forall|p: int| 0 <= p < j ==> #[trigger] out_dates@[p] == lo + p,
                forall|p: int| 0 <= p < j ==> #[trigger] out_mvs@[p] == filled_mv(dates@, mvs@, lo as int, p as nat),
                forall|p: int| 0 <= p < j ==> #[trigger] out_pls@[p] == filled_pl(dates@, pls@, lo as int, p as nat, zero),
            decreases span - j,
        {
            match slot[j] {
                Some(q) => {
                    last_mv = mvs[q];
                    out_pls.push(pls[q]);
                },
                None => {
                    out_pls.push(zero);
                },
            }
            out_mvs.push(last_mv);
            out_dates.push((lo as i64 + j as i64) as i32);
            j += 1;
        }
        Ok(Rtn { dates: out_dates, mvs: out_mvs, pls: out_pls })
    }
}

impl<V> Rtn<V> {
    /// The market value at position `i`.
    pub fn mv(&self, i: usize) -> (r: Option<V>)
        where
            V: Copy,
        ensures
            i < self.mvs@.len() ==> r == Some(self.mvs@[i as int]),
            i >= self.mvs@.len() ==> r is None,
    {
        if i < self.mvs.len() {
            Some(self.mvs[i])
        } else {
            None
        }
    }

    /// The market value before position `i`: none for the first day.
    pub fn mv0(&self, i: usize) -> (r: Option<V>)
        where
            V: Copy,
        ensures
            0 < i <= self.mvs@.len() ==> r == Some(self.mvs@[i - 1]),
            i == 0 || i > self.mvs@.len() ==> r is None,
    {
        if i == 0 {
            None
        } else {
            self.mv(i - 1)
        }
    }

    /// The profit and loss at position `i`.
    pub fn pl(&self, i: usize) -> (r: Option<V>)
        where
            V: Copy,
        ensures
            i < self.pls@.len() ==> r == Some(self.pls@[i as int]),
            i >= self.pls@.len() ==> r is None,
    {
        if i < self.pls.len() {
            Some(self.pls[i])
        } else {
            None
        }
    }

    /// The position of the day `date` in the series.
    pub fn i(&self, date: i32) -> (r: Option<usize>)
        requires
            self.wf(),
        ensures
            r matches Some(k) ==> k < self.dates@.len() && self.dates@[k as int] == date && k == date
                - self.dates@[0],
            r is None <==> !self.covers(date as int),
            r is None ==> forall|k: int| 0 <= k < self.dates@.len() ==> #[trigger] self.dates@[k] != date,
    {
        let n = self.dates.len();
        let first = self.dates[0];
        let last = self.dates[n - 1];
        if date < first || date > last {
            return None;
        }
        Some((date as i64 - first as i64) as usize)
    }

    /// Every day from `from` to `to`, both included.
    pub fn dates(from: i32, to: i32) -> (r: Result<Vec<i32>, RtnError>)
        ensures
            from > to ==> r == Err::<Vec<i32>, RtnError>(RtnError::FromAfterTo),
            from <= to ==> (r matches Ok(v) && v@.len() == to - from + 1 && forall|j: int|
                0 <= j < v@.len() ==> #[trigger] v@[j] == from + j),
    {
        if from > to {
            return Err(RtnError::FromAfterTo);
        }
        let mut out: Vec<i32> = Vec::new();
        let mut d: i32 = from;
        loop
            invariant_except_break
                from <= d <= to,
                out@.len() == d - from,
                forall|j: int| 0 <= j < out@.len() ==> #[trigger] out@[j] == from + j,
            ensures
                out@.len() == to - from + 1,
                forall|j: int| 0 <= j < out@.len() ==> #[trigger] out@[j] == from + j,
            decreases to - d,
        {
            out.push(d);
            if d == to {
                break;
            }
            d += 1;
        }
        Ok(out)
    }

    /// The positions of the days from `from` to `to`, both included.
    pub fn i_dates(&self, from: i32, to: i32) -> (r: Result<Vec<usize>, RtnError>)
        requires
            self.wf(),
        ensures
            !self.covers(from as int) || !self.covers(to as int) ==> r == Err::<Vec<usize>, RtnError>(
                RtnError::OutOfRange,
            ),
            self.covers(from as int) && self.covers(to as int) && from > to ==> r == Err::<
                Vec<usize>,
                RtnError,
            >(RtnError::FromAfterTo),
            self.covers(from as int) && self.covers(to as int) && from <= to ==> (r matches Ok(v) && v@.len()
                == to - from + 1 && forall|j: int|
                0 <= j < v@.len() ==> #[trigger] v@[j] == from - self.dates@[0] + j && self.dates@[v@[j] as int] == from + j),
    {
        let i_from = match self.i(from) {
            Some(k) => k,
            None => {
                return Err(RtnError::OutOfRange);
            },
        };
        let i_to = match self.i(to) {
            Some(k) => k,
            None => {
                return Err(RtnError::OutOfRange);
            },
        };
        if i_from > i_to {
            return Err(RtnError::FromAfterTo);
        }
        let n = self.dates.len();
        let mut out: Vec<usize> = Vec::new();
        let mut k: usize = i_from;
        while k <= i_to
            invariant
                self.wf(),
                i_to < n,
                i_from <= k <= i_to + 1,
                i_to < self.dates@.len(),
                self.dates@[i_from as int] == from,
                out@.len() == k - i_from,
                forall|j: int| 0 <= j < out@.len() ==> #[trigger] out@[j] == i_from + j,
            decreases i_to + 1 - k,
        {
            out.push(k);
            k += 1;
        }
        Ok(out)
    }

    /// Some day of the series is `d`.
    pub open spec fn covers(&self, d: int) -> bool {
        self.dates@[0] <= d < self.dates@[0] + self.dates@.len()
    }
}

/// The weight of the flow at position `i` of a Modified Dietz window
/// `first..=last`, as numerator and denominator: the days from `i` to the
/// window's end, counting day `i` itself for an inflow (taken at the start of
/// the day) and not for an outflow (taken at its end), over the days of the
/// window.
pub fn dietz_weight(first: usize, last: usize, i: usize, inflow: bool) -> (r: (usize, usize))
    requires
        first <= i <= last < usize::MAX,
    ensures
        r.0 == last - i + if inflow { 1int } else { 0 },
        r.1 == last - first + 1,
{
    (last - i + if inflow { 1 } else { 0 }, last - first + 1)
}

/// Every element up to `i` is defined.
pub open spec fn all_defined<T>(xs: Seq<Option<T>>, i: int) -> bool {
    forall|j: int| 0 <= j <= i ==> (#[trigger] xs[j]) is Some
}

/// Links a sequence of possibly undefined values: the first element as it is,
/// then each element combined by `step` with the linked value before it. An
/// undefined element makes its linked value and all later ones undefined.
pub fn link<T: Copy, F: Fn(T, T) -> T>(xs: &Vec<Option<T>>, step: F) -> (r: Vec<Option<T>>)
    requires
        forall|a: T, b: T| step.requires((a, b)),
    ensures
        r@.len() == xs@.len(),
        forall|i: int| 0 <= i < r@.len() ==> ((#[trigger] r@[i]) is Some <==> all_defined(xs@, i)),
        forall|i: int, j: int| 0 <= i <= j < r@.len() && (#[trigger] r@[i]) is None ==> (#[trigger] r@[j]) is None,
        r@.len() > 0 ==> r@[0] == xs@[0],
        forall|i: int|
            0 < i < r@.len() && (#[trigger] r@[i]) is Some ==> call_ensures(
                step,
                (r@[i - 1]->0, xs@[i]->0),
                r@[i]->0,
            ),
{
    let mut out: Vec<Option<T>> = Vec::new();
    let mut i: usize = 0;
    while i < xs.len()
        invariant
            forall|a: T, b: T| step.requires((a, b)),
            i <= xs@.len(),
            out@.len() == i,
            forall|k: int| 0 <= k < i ==> ((#[trigger] out@[k]) is Some <==> all_defined(xs@, k)),
            i > 0 ==> out@[0] == xs@[0],
            forall|k: int|
                0 < k < i && (#[trigger] out@[k]) is Some ==> call_ensures(
                    step,
                    (out@[k - 1]->0, xs@[k]->0),
                    out@[k]->0,
                ),
        decreases xs@.len() - i,
    {
        let v = if i == 0 {
            xs[0]
        } else {
            match (out[i - 1], xs[i]) {
                (Some(a), Some(b)) => Some(step(a, b)),
                _ => None,
            }
        };
        proof {
            if i > 0 {
                assert(all_defined(xs@, i as int) <==> all_defined(xs@, i - 1) && xs@[i as int] is Some);
            }
        }
        out.push(v);
        i += 1;
    }
    out
}

} // verus!
