//! The segmentation state machine: one tick at a time, it merges repeated
//! observations into the open segment, replaces activity with the idle
//! sentinel after long inactivity, drops blacklisted activity, and hands
//! back the segment to persist whenever one closes.

use vstd::prelude::*;

use crate::activity::{idle_activity, Activity, SpecActivity};
use crate::config::{spec_blacklisted, Config};
use crate::entry::{entry_wf, Entry, SpecEntry};
use crate::tagger::{spec_tag, SpecTag};

verus! {

/// Inactivity longer than this, in milliseconds, records the idle
/// sentinel instead of the focused activity.
pub const MAX_IDLE_TIME_MS: u64 = 300000;

/// The activity a tick works with: the observed one, or the idle
/// sentinel once the idle time exceeds the threshold.
pub open spec fn spec_effective(a: SpecActivity, idle_ms: u64) -> SpecActivity {
    if idle_ms > MAX_IDLE_TIME_MS {
        idle_activity()
    } else {
        a
    }
}

/// The merge-or-flush step: extend the open segment when the activity is
/// unchanged, otherwise close it and open a fresh one at `now`. The first
/// component is the open segment afterwards, the second the segment to
/// persist, if any.
pub open spec fn spec_merge(cur: Option<SpecEntry>, act: SpecActivity, now: int) -> (
    Option<SpecEntry>,
    Option<SpecEntry>,
) {
    match cur {
        Some(c) => if c.activity == act {
            (Some(SpecEntry { begin: c.begin, end: now, activity: c.activity }), None)
        } else {
            (Some(SpecEntry { begin: now, end: now, activity: act }), Some(c))
        },
        None => (Some(SpecEntry { begin: now, end: now, activity: act }), None),
    }
}

/// One whole tick: blacklisted activity closes the open segment and is
/// never recorded; otherwise the idle override applies and the activity
/// is merged. The first component is the open segment afterwards, the
/// second the segment to persist, if any.
pub open spec fn spec_track(
    cur: Option<SpecEntry>,
    tags: Seq<SpecTag>,
    bl: Seq<String>,
    a: SpecActivity,
    idle_ms: u64,
    now: int,
) -> (Option<SpecEntry>, Option<SpecEntry>) {
    match spec_tag(tags, a) {
        Some(name) => if spec_blacklisted(bl, name) {
            (None, cur)
        } else {
            spec_merge(cur, spec_effective(a, idle_ms), now)
        },
        None => spec_merge(cur, spec_effective(a, idle_ms), now),
    }
}

/// The tracker's state: the one open segment, if any.
pub struct Tracker {
    pub current: Option<Entry>,
}

impl View for Tracker {
    type V = Option<SpecEntry>;

    open spec fn view(&self) -> Option<SpecEntry> {
        match self.current {
            Some(e) => Some(e@),
            None => None,
        }
    }
}

/// The tracker's invariant: the open segment, if any, is well formed.
pub open spec fn tracker_wf(t: Option<SpecEntry>) -> bool {
    match t {
        Some(e) => entry_wf(e),
        None => true,
    }
}

impl Tracker {
    /// A tracker with no open segment.
    pub fn new() -> (t: Tracker)
        ensures
            t@ is None,
    {
        Tracker { current: None }
    }

    /// One tick with an observed activity. Returns the segment to
    /// persist, if this tick closed one; the caller stores it. Ticks with
    /// no observable activity simply do not call this.
    pub fn track(
        &mut self,
        activity: Activity,
        now: i64,
        idle_ms: u64,
        config: &Config,
    ) -> (flushed: Option<Entry>)
        requires
            tracker_wf(old(self)@),
            config.wf(),
            now >= 0,
            old(self)@ matches Some(c) ==> now >= c.end,
        ensures
            tracker_wf(final(self)@),
            ({
                let step = spec_track(
                    old(self)@,
                    config.tagger@,
                    config.blacklist@,
                    activity@,
                    idle_ms,
                    now as int,
                );
                final(self)@ == step.0 && (match flushed {
                    Some(e) => step.1 == Some(e@) && entry_wf(e@),
                    None => step.1 is None,
                })
            }),
    {
        let tagged = config.tagger.tag(&activity);
        let is_blacklisted = match tagged {
            Some(name) => config.blacklisted(name),
            None => false,
        };
        if is_blacklisted {
            return self.flush();
        }
        let act = if idle_ms > MAX_IDLE_TIME_MS {
            Activity::idle()
        } else {
            activity
        };
        match self.current.take() {
            Some(cur) => {
                if cur.activity.same_as(&act) {
                    let merged = Entry { begin: cur.begin, end: now, activity: cur.activity };
                    self.current = Some(merged);
                    None
                } else {
                    self.current = Some(Entry::new(act, now));
                    Some(cur)
                }
            }
            None => {
                self.current = Some(Entry::new(act, now));
                None
            }
        }
    }

    /// Close and hand back the open segment, if any; afterwards no
    /// segment is open.
    pub fn flush(&mut self) -> (flushed: Option<Entry>)
        requires
            tracker_wf(old(self)@),
        ensures
            final(self)@ is None,
            match flushed {
                Some(e) => old(self)@ == Some(e@) && entry_wf(e@),
                None => old(self)@ is None,
            },
    {
        self.current.take()
    }
}

} // verus!
