//! A segment: one contiguous period during which the observed activity
//! was constant.

use vstd::prelude::*;

use crate::activity::{Activity, SpecActivity};

verus! {

/// One segment of the timeline. Timestamps are milliseconds of the epoch;
/// a well-formed entry has `0 <= begin <= end`.
pub struct Entry {
    pub begin: i64,
    pub end: i64,
    pub activity: Activity,
}

/// The mathematical value of an [`Entry`].
pub ghost struct SpecEntry {
    pub begin: int,
    pub end: int,
    pub activity: SpecActivity,
}

impl View for Entry {
    type V = SpecEntry;

    open spec fn view(&self) -> SpecEntry {
        SpecEntry { begin: self.begin as int, end: self.end as int, activity: self.activity@ }
    }
}

/// The invariant of a segment: it starts at or after the epoch and does
/// not end before it begins.
pub open spec fn entry_wf(e: SpecEntry) -> bool {
    0 <= e.begin <= e.end
}

impl Entry {
    /// A fresh segment that begins and ends at `time`.
    pub fn new(activity: Activity, time: i64) -> (e: Entry)
        requires
            time >= 0,
        ensures
            e@.begin == time as int,
            e@.end == time as int,
            e@.activity == activity@,
            entry_wf(e@),
    {
        Entry { begin: time, end: time, activity }
    }

    /// An owned copy with the same value.
    pub fn duplicate(&self) -> (r: Entry)
        ensures
            r@ == self@,
    {
        Entry { begin: self.begin, end: self.end, activity: self.activity.duplicate() }
    }
}

} // verus!
