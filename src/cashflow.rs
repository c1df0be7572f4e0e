//! An ordered mapping from dates to amounts, and its view relative to a
//! valuation date.

use vstd::prelude::*;
use crate::calendar::{Date, date_lt};

verus! {

/// The entries' dates are valid and strictly ascending.
pub open spec fn ascending<V>(s: Seq<(Date, V)>) -> bool {
    &&& forall|i: int| 0 <= i < s.len() ==> (#[trigger] s[i]).0.wf()
    &&& forall|i: int, j: int| 0 <= i < j < s.len() ==> date_lt(#[trigger] s[i].0, #[trigger] s[j].0)
}

/// The entries of `s` dated strictly after `r`, in their order.
pub open spec fn entries_after<V>(s: Seq<(Date, V)>, r: Date) -> Seq<(Date, V)>
    decreases s.len(),
{
    if s.len() == 0 {
        s
    } else {
        let rest = entries_after(s.drop_last(), r);
        if date_lt(r, s.last().0) {
            rest.push(s.last())
        } else {
            rest
        }
    }
}

/// The entries of the view relative to `r`: none for an empty mapping;
/// otherwise the optional initial entry dated `r`, then the entries after `r`.
pub open spec fn relative_entries<V>(s: Seq<(Date, V)>, r: Date, initial: Option<V>) -> Seq<(Date, V)> {
    if s.len() == 0 {
        s
    } else {
        match initial {
            Some(v) => seq![(r, v)] + entries_after(s, r),
            None => entries_after(s, r),
        }
    }
}

/// Dated amounts, keyed by date in ascending order.
#[derive(Debug)]
pub struct Cashflow<V> {
    pub data: Vec<(Date, V)>,
}

/// Every entry of `entries_after(s, r)` is an entry of `s` dated after `r`,
/// and the result keeps the ascending order of `s`.
pub proof fn lemma_entries_after<V>(s: Seq<(Date, V)>, r: Date)
    requires
        ascending(s),
    ensures
        ascending(entries_after(s, r)),
        entries_after(s, r).len() <= s.len(),
        forall|i: int| 0 <= i < entries_after(s, r).len() ==> date_lt(r, #[trigger] entries_after(s, r)[i].0)
            && s.contains(entries_after(s, r)[i]),
        s.len() > 0 && date_lt(r, s.last().0) ==> entries_after(s, r).len() > 0
            && entries_after(s, r).last() == s.last(),
    decreases s.len(),
{
    if s.len() > 0 {
        let t = s.drop_last();
        assert(ascending(t));
        lemma_entries_after(t, r);
        let rest = entries_after(t, r);
        if date_lt(r, s.last().0) {
            let out = rest.push(s.last());
            assert forall|i: int| 0 <= i < out.len() implies date_lt(r, #[trigger] out[i].0)
                && s.contains(out[i]) by {
                if i < rest.len() {
                    assert(out[i] == rest[i]);
                    let k = choose|k: int| 0 <= k < t.len() && t[k] == rest[i];
                    assert(s[k] == t[k]);
                } else {
                    assert(s[s.len() - 1] == out[i]);
                }
            }
            assert forall|i: int, j: int| 0 <= i < j < out.len() implies date_lt(#[trigger] out[i].0, #[trigger] out[j].0) by {
                if j < rest.len() {
                    assert(out[i] == rest[i] && out[j] == rest[j]);
                } else {
                    assert(out[i] == rest[i]);
                    let k = choose|k: int| 0 <= k < t.len() && t[k] == rest[i];
                    assert(s[k] == t[k]);
                    assert(date_lt(s[k].0, s[s.len() - 1].0));
                }
            }
        }
    }
}

impl<V> Cashflow<V> {
    pub open spec fn wf(&self) -> bool {
        ascending(self.data@)
    }

    /// An empty mapping.
    pub fn new() -> (r: Cashflow<V>)
        ensures
            r.data@.len() == 0,
            r.wf(),
    {
        Cashflow { data: Vec::new() }
    }

    /// The number of entries.
    pub fn len(&self) -> (r: usize)
        ensures
            r == self.data@.len(),
    {
        self.data.len()
    }

    /// The dates, ascending.
    pub fn dates(&self) -> (r: Vec<Date>)
        ensures
            r@.len() == self.data@.len(),
            forall|i: int| 0 <= i < r@.len() ==> r@[i] == #[trigger] self.data@[i].0,
    {
        let mut out: Vec<Date> = Vec::new();
        let mut i: usize = 0;
        while i < self.data.len()
            invariant
                i <= self.data@.len(),
                out@.len() == i,
                forall|k: int| 0 <= k < i ==> out@[k] == #[trigger] self.data@[k].0,
            decreases self.data@.len() - i,
        {
            out.push(self.data[i].0);
            i += 1;
        }
        out
    }

    /// The amounts, in the order of their dates.
    pub fn values(&self) -> (r: Vec<V>)
        where
            V: Copy,
        ensures
            r@.len() == self.data@.len(),
            forall|i: int| 0 <= i < r@.len() ==> r@[i] == #[trigger] self.data@[i].1,
    {
        let mut out: Vec<V> = Vec::new();
        let mut i: usize = 0;
        while i < self.data.len()
            invariant
                i <= self.data@.len(),
                out@.len() == i,
                forall|k: int| 0 <= k < i ==> out@[k] == #[trigger] self.data@[k].1,
            decreases self.data@.len() - i,
        {
            out.push(self.data[i].1);
            i += 1;
        }
        out
    }

    /// The view relative to `ref_date`: the entries dated after it, preceded,
    /// when `initial` is given, by that amount dated `ref_date`. An empty
    /// mapping stays empty.
    pub fn cf(&self, ref_date: &Date, initial: Option<V>) -> (r: Cashflow<V>)
        where
            V: Copy,
        requires
            self.wf(),
            ref_date.wf(),
        ensures
            r.data@ == relative_entries(self.data@, *ref_date, initial),
            r.wf(),
    {
        let mut out: Vec<(Date, V)> = Vec::new();
        if self.data.len() == 0 {
            return Cashflow { data: out };
        }
        let mut kept: Vec<(Date, V)> = Vec::new();
        let mut i: usize = 0;
        while i < self.data.len()
            invariant
                i <= self.data@.len(),
                kept@ == entries_after(self.data@.take(i as int), *ref_date),
            decreases self.data@.len() - i,
        {
            let e = self.data[i];
            assert(self.data@.take(i as int + 1).drop_last() == self.data@.take(i as int));
            if ref_date.is_before(&e.0) {
                kept.push(e);
            }
            i += 1;
        }
        assert(self.data@.take(self.data@.len() as int) == self.data@);
        proof {
            lemma_entries_after(self.data@, *ref_date);
        }
        match initial {
            Some(v) => {
                out.push((*ref_date, v));
                out.append(&mut kept);
            },
            None => {
                out = kept;
            },
        }
        proof {
            let s = out@;
            let k = entries_after(self.data@, *ref_date);
            if initial is Some {
                assert forall|i: int| 0 <= i < s.len() implies (#[trigger] s[i]).0.wf() by {
                    if i > 0 {
                        assert(s[i] == k[i - 1]);
                    }
                }
                assert forall|i: int, j: int| 0 <= i < j < s.len() implies date_lt(#[trigger] s[i].0, #[trigger] s[j].0) by {
                    assert(s[j] == k[j - 1]);
                    if i > 0 {
                        assert(s[i] == k[i - 1]);
                    }
                }
            }
        }
        Cashflow { data: out }
    }
}

} // verus!
