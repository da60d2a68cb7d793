//! The in-memory store of closed segments, with the query semantics the
//! persistence contract promises: range selection ordered by begin,
//! distinct active dates, and total duration grouped by executable.
//! Segments arrive in timeline order, one flush per tick, so consecutive
//! stored entries never overlap; the queries are verified against that
//! discipline.

use vstd::prelude::*;

use crate::entry::{entry_wf, Entry, SpecEntry};
use crate::text::{chars_eq, chars_vec};

verus! {

/// The mathematical values of a sequence of entries.
pub open spec fn entries_view(v: Seq<Entry>) -> Seq<SpecEntry> {
    v.map_values(|e: Entry| e@)
}

/// The store: closed segments in the order they were flushed.
pub struct Storage {
    entries: Vec<Entry>,
}

impl View for Storage {
    type V = Seq<SpecEntry>;

    closed spec fn view(&self) -> Seq<SpecEntry> {
        entries_view(self.entries@)
    }
}

/// The store's invariant: every entry is well formed, and each entry
/// begins no earlier than the one before it ended — the order in which
/// the tick loop flushes them.
pub open spec fn storage_wf(s: Seq<SpecEntry>) -> bool {
    (forall|i: int| 0 <= i < s.len() ==> entry_wf(#[trigger] s[i])) && (forall|i: int|
        0 <= i < s.len() - 1 ==> (#[trigger] s[i]).end <= s[i + 1].begin)
}

/// Whether a segment's interval intersects the query range `[from, to)`.
pub open spec fn overlaps(e: SpecEntry, from: int, to: int) -> bool {
    e.begin < to && e.end >= from
}

/// The entries whose interval intersects `[from, to)`, in stored order.
pub open spec fn spec_select(s: Seq<SpecEntry>, from: int, to: int) -> Seq<SpecEntry>
    decreases s.len(),
{
    if s.len() == 0 {
        Seq::empty()
    } else {
        let rest = spec_select(s.drop_last(), from, to);
        if overlaps(s.last(), from, to) {
            rest.push(s.last())
        } else {
            rest
        }
    }
}

/// What a fresh append must satisfy: a well-formed entry that begins no
/// earlier than the last stored entry ended.
pub open spec fn can_append(s: Seq<SpecEntry>, e: SpecEntry) -> bool {
    entry_wf(e) && (s.len() > 0 ==> s.last().end <= e.begin)
}

pub proof fn lemma_wf_drop_last(s: Seq<SpecEntry>)
    requires
        storage_wf(s),
        s.len() > 0,
    ensures
        storage_wf(s.drop_last()),
{
    let s2 = s.drop_last();
    assert forall|i: int| 0 <= i < s2.len() implies entry_wf(#[trigger] s2[i]) by {
        assert(s2[i] == s[i]);
    }
    assert forall|i: int| 0 <= i < s2.len() - 1 implies (#[trigger] s2[i]).end <= s2[i + 1].begin by {
        assert(s2[i] == s[i]);
        assert(s2[i + 1] == s[i + 1]);
    }
}

/// In a well-formed store, begins never decrease.
pub proof fn lemma_wf_begin_mono(s: Seq<SpecEntry>, i: int, j: int)
    requires
        storage_wf(s),
        0 <= i <= j < s.len(),
    ensures
        s[i].begin <= s[j].begin,
    decreases j - i,
{
    if i < j {
        lemma_wf_begin_mono(s, i, j - 1);
        assert(entry_wf(s[j - 1]));
        assert(s[j - 1].end <= s[j].begin);
    }
}

impl Storage {
    /// An empty store.
    pub fn new() -> (s: Storage)
        ensures
            s@ =~= Seq::<SpecEntry>::empty(),
            storage_wf(s@),
    {
        let s = Storage { entries: Vec::new() };
        proof {
            assert(s@ =~= Seq::<SpecEntry>::empty());
        }
        s
    }

    /// Append a closed segment. Append-only: nothing already stored
    /// changes. The tick loop closes segments in timeline order, which is
    /// exactly what `can_append` asks.
    pub fn store(&mut self, entry: Entry)
        requires
            storage_wf(old(self)@),
            can_append(old(self)@, entry@),
        ensures
            final(self)@ == old(self)@.push(entry@),
            storage_wf(final(self)@),
    {
        let ghost s0 = self@;
        self.entries.push(entry);
        proof {
            assert(self@ =~= s0.push(entry@));
            let s1 = s0.push(entry@);
            assert forall|i: int| 0 <= i < s1.len() implies entry_wf(#[trigger] s1[i]) by {
                if i < s0.len() {
                    assert(s1[i] == s0[i]);
                }
            }
            assert forall|i: int| 0 <= i < s1.len() - 1 implies (#[trigger] s1[i]).end <= s1[i
                + 1].begin by {
                if i < s0.len() - 1 {
                    assert(s1[i] == s0[i]);
                    assert(s1[i + 1] == s0[i + 1]);
                } else {
                    assert(s1[i] == s0.last());
                    assert(s1[i + 1] == entry@);
                }
            }
        }
    }

    /// The number of stored segments.
    pub fn len(&self) -> (n: usize)
        ensures
            n == self@.len(),
    {
        self.entries.len()
    }

    /// The entries whose interval intersects `[from, to)`, in stored
    /// order — which is ascending order of `begin`.
    pub fn select(&self, from: i64, to: i64) -> (r: Vec<Entry>)
        ensures
            entries_view(r@) == spec_select(self@, from as int, to as int),
    {
        let ghost s = self@;
        let mut r: Vec<Entry> = Vec::new();
        proof {
            assert(s.subrange(0, 0) =~= Seq::<SpecEntry>::empty());
            assert(entries_view(r@) =~= spec_select(s.subrange(0, 0), from as int, to as int));
        }
        let mut i: usize = 0;
        while i < self.entries.len()
            invariant
                s == self@,
                i <= self.entries@.len(),
                s.len() == self.entries@.len(),
                entries_view(r@) == spec_select(s.subrange(0, i as int), from as int, to as int),
            decreases self.entries@.len() - i,
        {
            let e = &self.entries[i];
            proof {
                assert(e@ == s[i as int]);
                let pre = s.subrange(0, i as int);
                let pre1 = s.subrange(0, i + 1);
                assert(pre1.drop_last() =~= pre);
                assert(pre1.last() == s[i as int]);
            }
            if e.begin < to && e.end >= from {
                let copy = e.duplicate();
                r.push(copy);
                proof {
                    assert(entries_view(r@) =~= spec_select(
                        s.subrange(0, i + 1),
                        from as int,
                        to as int,
                    ));
                }
            } else {
                proof {
                    assert(entries_view(r@) =~= spec_select(
                        s.subrange(0, i + 1),
                        from as int,
                        to as int,
                    ));
                }
            }
            i = i + 1;
        }
        proof {
            assert(s.subrange(0, i as int) =~= s);
        }
        r
    }
}

/// Everything `select` returns intersects the query range: no entry
/// fully outside `[from, to)` is ever returned.
pub proof fn lemma_select_within_range(s: Seq<SpecEntry>, from: int, to: int)
    ensures
        forall|k: int|
            0 <= k < spec_select(s, from, to).len() ==> overlaps(
                #[trigger] spec_select(s, from, to)[k],
                from,
                to,
            ),
    decreases s.len(),
{
    if s.len() > 0 {
        lemma_select_within_range(s.drop_last(), from, to);
        let sel0 = spec_select(s.drop_last(), from, to);
        let sel = spec_select(s, from, to);
        assert forall|k: int| 0 <= k < sel.len() implies overlaps(#[trigger] sel[k], from, to) by {
            if overlaps(s.last(), from, to) {
                if k < sel0.len() {
                    assert(sel[k] == sel0[k]);
                } else {
                    assert(sel[k] == s.last());
                }
            } else {
                assert(sel[k] == sel0[k]);
            }
        }
    }
}

/// What `select` returns is ordered by `begin`, ascending; and nothing
/// in it begins later than the store's last entry.
pub proof fn lemma_select_ordered(s: Seq<SpecEntry>, from: int, to: int)
    requires
        storage_wf(s),
    ensures
        forall|k1: int, k2: int|
            0 <= k1 < k2 < spec_select(s, from, to).len() ==> (#[trigger] spec_select(
                s,
                from,
                to,
            )[k1]).begin <= (#[trigger] spec_select(s, from, to)[k2]).begin,
        spec_select(s, from, to).len() > 0 && s.len() > 0 ==> spec_select(
            s,
            from,
            to,
        ).last().begin <= s.last().begin,
    decreases s.len(),
{
    if s.len() > 0 {
        lemma_wf_drop_last(s);
        lemma_select_ordered(s.drop_last(), from, to);
        let sel0 = spec_select(s.drop_last(), from, to);
        let sel = spec_select(s, from, to);
        if s.len() >= 2 {
            lemma_wf_begin_mono(s, s.len() - 2, s.len() - 1);
            assert(s.drop_last().last() == s[s.len() - 2]);
        }
        if overlaps(s.last(), from, to) {
            assert(sel == sel0.push(s.last()));
            assert forall|k1: int, k2: int| 0 <= k1 < k2 < sel.len() implies (#[trigger] sel[k1]).begin
                <= (#[trigger] sel[k2]).begin by {
                if k2 < sel0.len() {
                    assert(sel[k1] == sel0[k1]);
                    assert(sel[k2] == sel0[k2]);
                } else {
                    assert(sel[k2] == s.last());
                    assert(sel[k1] == sel0[k1]);
                    if sel0.len() > 0 {
                        assert(sel0[k1].begin <= sel0.last().begin);
                    }
                }
            }
        } else {
            assert(sel == sel0);
        }
    }
}

// ------------------------------------------------------------------
// Active dates.
// ------------------------------------------------------------------

/// The millisecond epoch of the midnight beginning the calendar day that
/// holds instant `t` (for non-negative `t`).
pub open spec fn day_ms(t: int) -> int {
    (t / 86400000) * 86400000
}

/// Whether `d` is the midnight of a calendar day on which some stored
/// segment was active: some entry's interval reaches into that day.
pub open spec fn spec_active_date(s: Seq<SpecEntry>, d: int) -> bool {
    d % 86400000 == 0 && exists|i: int|
        0 <= i < s.len() && day_ms((#[trigger] s[i]).begin) <= d <= day_ms(s[i].end)
}

/// Whether the midnight `d` is among the listed dates.
pub open spec fn has_date(r: Seq<i64>, d: int) -> bool {
    exists|k: int| 0 <= k < r.len() && (#[trigger] r[k]) as int == d
}

/// The midnight of the day holding `t`.
fn day_floor(t: i64) -> (d: i64)
    requires
        t >= 0,
    ensures
        d as int == day_ms(t as int),
        0 <= d <= t,
        d as int % 86400000 == 0,
{
    let tu = t as u64;
    let q = tu / 86400000u64;
    proof {
        vstd::arithmetic::div_mod::lemma_fundamental_div_mod(tu as int, 86400000);
        vstd::arithmetic::div_mod::lemma_mod_bound(tu as int, 86400000);
        vstd::arithmetic::div_mod::lemma_mod_multiples_basic(q as int, 86400000);
    }
    let du = q * 86400000u64;
    du as i64
}

fn contains_i64(v: &Vec<i64>, x: i64) -> (r: bool)
    ensures
        r == has_date(v@, x as int),
{
    let mut i: usize = 0;
    while i < v.len()
        invariant
            i <= v@.len(),
            forall|k: int| 0 <= k < i ==> (#[trigger] v@[k]) != x,
        decreases v@.len() - i,
    {
        if v[i] == x {
            proof {
                assert((v@[i as int]) as int == x as int);
            }
            return true;
        }
        i = i + 1;
    }
    proof {
        if has_date(v@, x as int) {
            let k = choose|k: int| 0 <= k < v@.len() && (#[trigger] v@[k]) as int == x as int;
            assert(v@[k] == x);
        }
    }
    false
}

impl Storage {
    /// The distinct midnights of the calendar days on which at least one
    /// stored segment was active. No order is promised.
    pub fn active_dates(&self) -> (r: Vec<i64>)
        requires
            storage_wf(self@),
        ensures
            forall|k: int| 0 <= k < r@.len() ==> spec_active_date(self@, (#[trigger] r@[k]) as int),
            forall|d: int| spec_active_date(self@, d) ==> has_date(r@, d),
            forall|k1: int, k2: int| 0 <= k1 < k2 < r@.len() ==> r@[k1] != r@[k2],
    {
        let ghost s = self@;
        let mut r: Vec<i64> = Vec::new();
        let mut i: usize = 0;
        while i < self.entries.len()
            invariant
                s == self@,
                storage_wf(s),
                i <= self.entries@.len(),
                s.len() == self.entries@.len(),
                forall|k: int| 0 <= k < r@.len() ==> spec_active_date(s, (#[trigger] r@[k]) as int),
                forall|d: int|
                    spec_active_date(s.subrange(0, i as int), d) ==> has_date(r@, d),
                forall|k1: int, k2: int| 0 <= k1 < k2 < r@.len() ==> r@[k1] != r@[k2],
            decreases self.entries@.len() - i,
        {
            let eb = self.entries[i].begin;
            let ee = self.entries[i].end;
            proof {
                assert(self.entries@[i as int]@ == s[i as int]);
                assert(entry_wf(s[i as int]));
            }
            let d0 = day_floor(eb);
            let dend = day_floor(ee);
            proof {
                vstd::arithmetic::div_mod::lemma_div_is_ordered(
                    eb as int,
                    ee as int,
                    86400000,
                );
            }
            let mut d = d0;
            loop
                invariant
                    s == self@,
                    storage_wf(s),
                    i < s.len(),
                    d0 as int == day_ms(s[i as int].begin),
                    dend as int == day_ms(s[i as int].end),
                    d0 <= d <= dend,
                    d as int % 86400000 == 0,
                    dend as int % 86400000 == 0,
                    forall|k: int|
                        0 <= k < r@.len() ==> spec_active_date(s, (#[trigger] r@[k]) as int),
                    forall|dd: int|
                        spec_active_date(s.subrange(0, i as int), dd) ==> has_date(r@, dd),
                    forall|k1: int, k2: int| 0 <= k1 < k2 < r@.len() ==> r@[k1] != r@[k2],
                    forall|dd: int|
                        dd % 86400000 == 0 && d0 as int <= dd < d as int ==> has_date(r@, dd),
                ensures
                    forall|k: int|
                        0 <= k < r@.len() ==> spec_active_date(s, (#[trigger] r@[k]) as int),
                    forall|dd: int|
                        spec_active_date(s.subrange(0, i as int), dd) ==> has_date(r@, dd),
                    forall|k1: int, k2: int| 0 <= k1 < k2 < r@.len() ==> r@[k1] != r@[k2],
                    forall|dd: int|
                        dd % 86400000 == 0 && d0 as int <= dd <= dend as int ==> has_date(
                            r@,
                            dd,
                        ),
                decreases dend - d,
            {
                let ghost r_old = r@;
                if !contains_i64(&r, d) {
                    r.push(d);
                    proof {
                        assert(spec_active_date(s, d as int)) by {
                            assert(day_ms(s[i as int].begin) <= d as int <= day_ms(
                                s[i as int].end,
                            ));
                        }
                        assert forall|dd: int|
                            spec_active_date(s.subrange(0, i as int), dd) implies has_date(
                            r@,
                            dd,
                        ) by {
                            assert(has_date(r_old, dd));
                            let k = choose|k: int|
                                0 <= k < r_old.len() && (#[trigger] r_old[k]) as int == dd;
                            assert(r@[k] == r_old[k]);
                        }
                        assert forall|dd: int|
                            dd % 86400000 == 0 && d0 as int <= dd < d as int implies has_date(
                            r@,
                            dd,
                        ) by {
                            assert(has_date(r_old, dd));
                            let k = choose|k: int|
                                0 <= k < r_old.len() && (#[trigger] r_old[k]) as int == dd;
                            assert(r@[k] == r_old[k]);
                        }
                        assert(r@[r@.len() - 1] == d);
                    }
                }
                proof {
                    assert(has_date(r@, d as int)) by {
                        if r@ == r_old {
                        } else {
                            assert(r@[r@.len() - 1] == d);
                        }
                    }
                }
                if d >= dend {
                    break;
                }
                proof {
                    let diff = dend as int - d as int;
                    vstd::arithmetic::div_mod::lemma_fundamental_div_mod(d as int, 86400000);
                    vstd::arithmetic::div_mod::lemma_fundamental_div_mod(dend as int, 86400000);
                    let qd = d as int / 86400000;
                    let qe = dend as int / 86400000;
                    assert(diff == 86400000 * (qe - qd));
                    assert(qe - qd >= 1) by {
                        if qe - qd <= 0 {
                            assert(86400000 * (qe - qd) <= 0);
                        }
                    }
                    assert(diff >= 86400000);
                }
                d = d + 86400000;
            }
            proof {
                assert forall|dd: int|
                    spec_active_date(s.subrange(0, i + 1), dd) implies has_date(r@, dd) by {
                    let pre1 = s.subrange(0, i + 1);
                    let j = choose|j: int|
                        0 <= j < pre1.len() && day_ms((#[trigger] pre1[j]).begin) <= dd <= day_ms(
                            pre1[j].end,
                        );
                    assert(pre1[j] == s[j]);
                    if j < i {
                        assert(s.subrange(0, i as int)[j] == s[j]);
                        assert(spec_active_date(s.subrange(0, i as int), dd));
                    } else {
                        assert(d0 as int <= dd <= dend as int);
                    }
                }
            }
            i = i + 1;
        }
        proof {
            assert(s.subrange(0, i as int) =~= s);
        }
        r
    }
}

// ------------------------------------------------------------------
// Duration grouped by executable.
// ------------------------------------------------------------------

/// The total wall-clock duration, per executable path, of the entries
/// whose interval intersects `[from, to)`: each intersecting entry
/// contributes its whole `end - begin`.
pub open spec fn spec_durations(s: Seq<SpecEntry>, from: int, to: int) -> Map<Seq<char>, int>
    decreases s.len(),
{
    if s.len() == 0 {
        Map::empty()
    } else {
        let m = spec_durations(s.drop_last(), from, to);
        let e = s.last();
        if overlaps(e, from, to) {
            let prev = if m.dom().contains(e.activity.exe) {
                m[e.activity.exe]
            } else {
                0
            };
            m.insert(e.activity.exe, prev + e.end - e.begin)
        } else {
            m
        }
    }
}

/// The total duration of all intersecting entries, all executables
/// together.
pub open spec fn spec_total(s: Seq<SpecEntry>, from: int, to: int) -> int
    decreases s.len(),
{
    if s.len() == 0 {
        0
    } else {
        spec_total(s.drop_last(), from, to) + (if overlaps(s.last(), from, to) {
            s.last().end - s.last().begin
        } else {
            0
        })
    }
}

/// Whether the list of pairs holds exactly the mapping `m`: every pair's
/// value agrees with `m`, every key of `m` appears, and no key repeats.
pub open spec fn dur_map_matches(r: Seq<(String, i64)>, m: Map<Seq<char>, int>) -> bool {
    &&& forall|k: int|
        0 <= k < r.len() ==> m.dom().contains((#[trigger] r[k]).0@) && m[r[k].0@] == r[k].1 as int
    &&& forall|key: Seq<char>|
        #[trigger] m.dom().contains(key) ==> exists|k: int|
            0 <= k < r.len() && (#[trigger] r[k]).0@ == key
    &&& forall|k1: int, k2: int| 0 <= k1 < k2 < r.len() ==> (#[trigger] r[k1]).0@ != (#[trigger] r[k2]).0@
}

pub proof fn lemma_wf_prefix(s: Seq<SpecEntry>, n: int)
    requires
        storage_wf(s),
        0 <= n <= s.len(),
    ensures
        storage_wf(s.subrange(0, n)),
{
    let s2 = s.subrange(0, n);
    assert forall|i: int| 0 <= i < s2.len() implies entry_wf(#[trigger] s2[i]) by {
        assert(s2[i] == s[i]);
    }
    assert forall|i: int| 0 <= i < s2.len() - 1 implies (#[trigger] s2[i]).end <= s2[i + 1].begin by {
        assert(s2[i] == s[i]);
        assert(s2[i + 1] == s[i + 1]);
    }
}

/// In a well-formed store, the total duration is bounded by the span
/// from the first entry's begin to the last entry's end: the entries do
/// not overlap.
pub proof fn lemma_total_bound(s: Seq<SpecEntry>, from: int, to: int)
    requires
        storage_wf(s),
    ensures
        0 <= spec_total(s, from, to),
        s.len() > 0 ==> spec_total(s, from, to) <= s.last().end - s[0].begin,
    decreases s.len(),
{
    if s.len() > 0 {
        lemma_wf_drop_last(s);
        lemma_total_bound(s.drop_last(), from, to);
        assert(entry_wf(s[s.len() - 1]));
        if s.len() >= 2 {
            assert(s.drop_last().last() == s[s.len() - 2]);
            assert(s.drop_last()[0] == s[0]);
            assert(s[s.len() - 2].end <= s[s.len() - 1].begin);
            assert(entry_wf(s[0]));
            lemma_wf_begin_mono(s, 0, s.len() - 2);
            assert(s[0].begin <= s[s.len() - 2].begin);
            assert(entry_wf(s[s.len() - 2]));
        }
    }
}

/// Every accumulated per-executable total is non-negative and at most
/// the overall total.
pub proof fn lemma_durations_bound(s: Seq<SpecEntry>, from: int, to: int)
    requires
        storage_wf(s),
    ensures
        forall|key: Seq<char>|
            #[trigger] spec_durations(s, from, to).dom().contains(key) ==> 0 <= spec_durations(
                s,
                from,
                to,
            )[key] <= spec_total(s, from, to),
    decreases s.len(),
{
    if s.len() > 0 {
        lemma_wf_drop_last(s);
        lemma_durations_bound(s.drop_last(), from, to);
        lemma_total_bound(s.drop_last(), from, to);
        assert(entry_wf(s[s.len() - 1]));
        let m0 = spec_durations(s.drop_last(), from, to);
        let t0 = spec_total(s.drop_last(), from, to);
        let m = spec_durations(s, from, to);
        let t = spec_total(s, from, to);
        let e = s.last();
        if overlaps(e, from, to) {
            assert forall|key: Seq<char>| #[trigger] m.dom().contains(key) implies 0 <= m[key]
                <= t by {
                if key == e.activity.exe {
                } else {
                    assert(m[key] == m0[key]);
                }
            }
        }
    }
}

/// The position of `key` among the pairs collected so far, if any.
fn find_key(r: &Vec<(String, i64)>, key: &str) -> (idx: Option<usize>)
    ensures
        match idx {
            Some(j) => j < r@.len() && r@[j as int].0@ == key@,
            None => forall|k: int| 0 <= k < r@.len() ==> (#[trigger] r@[k]).0@ != key@,
        },
{
    let kv = chars_vec(key);
    let mut i: usize = 0;
    while i < r.len()
        invariant
            kv@ == key@,
            i <= r@.len(),
            forall|k: int| 0 <= k < i ==> (#[trigger] r@[k]).0@ != key@,
        decreases r@.len() - i,
    {
        let cv = chars_vec(r[i].0.as_str());
        if chars_eq(&cv, &kv) {
            return Some(i);
        }
        i = i + 1;
    }
    None
}

impl Storage {
    /// The total duration, in milliseconds, of the stored segments that
    /// intersect `[from, to)`, grouped by executable path and summed.
    /// No order among the pairs is promised.
    pub fn duration_by_exe(&self, from: i64, to: i64) -> (r: Vec<(String, i64)>)
        requires
            storage_wf(self@),
        ensures
            dur_map_matches(r@, spec_durations(self@, from as int, to as int)),
    {
        let ghost s = self@;
        let mut r: Vec<(String, i64)> = Vec::new();
        proof {
            assert(s.subrange(0, 0) =~= Seq::<SpecEntry>::empty());
        }
        let mut i: usize = 0;
        while i < self.entries.len()
            invariant
                s == self@,
                storage_wf(s),
                i <= self.entries@.len(),
                s.len() == self.entries@.len(),
                dur_map_matches(r@, spec_durations(s.subrange(0, i as int), from as int, to as int)),
                forall|k: int|
                    0 <= k < r@.len() ==> 0 <= (#[trigger] r@[k]).1 as int <= spec_total(
                        s.subrange(0, i as int),
                        from as int,
                        to as int,
                    ),
            decreases self.entries@.len() - i,
        {
            let ghost pre = s.subrange(0, i as int);
            let ghost pre1 = s.subrange(0, i + 1);
            let ghost m0 = spec_durations(pre, from as int, to as int);
            let ghost m1 = spec_durations(pre1, from as int, to as int);
            let ghost t0 = spec_total(pre, from as int, to as int);
            let ghost t1 = spec_total(pre1, from as int, to as int);
            proof {
                assert(self.entries@[i as int]@ == s[i as int]);
                assert(entry_wf(s[i as int]));
                assert(pre1.drop_last() =~= pre);
                assert(pre1.last() == s[i as int]);
                lemma_wf_prefix(s, i + 1);
                lemma_total_bound(pre1, from as int, to as int);
                assert(pre1[0] == s[0]);
                assert(entry_wf(s[0]));
            }
            let eb = self.entries[i].begin;
            let ee = self.entries[i].end;
            if eb < to && ee >= from {
                let dur = ee - eb;
                let exe_ref = self.entries[i].activity.exe.as_str();
                match find_key(&r, exe_ref) {
                    Some(j) => {
                        let ghost r_old = r@;
                        proof {
                            assert(m0.dom().contains(r_old[j as int].0@));
                            assert(m0[r_old[j as int].0@] == r_old[j as int].1 as int);
                            assert(m1 == m0.insert(
                                s[i as int].activity.exe,
                                m0[s[i as int].activity.exe] + s[i as int].end - s[i as int].begin,
                            ));
                            assert(t1 == t0 + (s[i as int].end - s[i as int].begin));
                        }
                        let p = &mut r[j];
                        let cur_val = p.1;
                        p.1 = cur_val + dur;
                        proof {
                            let key = s[i as int].activity.exe;
                            assert(r@[j as int].1 as int == cur_val + dur);
                            assert(r@[j as int].0 == r_old[j as int].0);
                            assert(forall|k: int|
                                0 <= k < r@.len() && k != j ==> r@[k] == r_old[k]);
                            assert(r@[j as int].0@ == key);
                            assert forall|k: int|
                                0 <= k < r@.len() implies m1.dom().contains(
                                (#[trigger] r@[k]).0@,
                            ) && m1[r@[k].0@] == r@[k].1 as int by {
                                if k != j {
                                    assert(r@[k] == r_old[k]);
                                    assert(r@[k].0@ != key);
                                    assert(m1[r@[k].0@] == m0[r@[k].0@]);
                                }
                            }
                            assert forall|key2: Seq<char>| #[trigger] m1.dom().contains(key2)
                                implies exists|k: int|
                                0 <= k < r@.len() && (#[trigger] r@[k]).0@ == key2 by {
                                assert(m0.dom().contains(key2) || key2 == key);
                                if key2 == key {
                                    assert(r@[j as int].0@ == key2);
                                } else {
                                    let k = choose|k: int|
                                        0 <= k < r_old.len() && (#[trigger] r_old[k]).0@ == key2;
                                    assert(r@[k].0@ == key2);
                                }
                            }
                            assert forall|k1: int, k2: int| 0 <= k1 < k2 < r@.len() implies (
                            #[trigger] r@[k1]).0@ != (#[trigger] r@[k2]).0@ by {
                                assert(r@[k1].0@ == r_old[k1].0@);
                                assert(r@[k2].0@ == r_old[k2].0@);
                            }
                            lemma_durations_bound(pre1, from as int, to as int);
                            assert forall|k: int|
                                0 <= k < r@.len() implies 0 <= (#[trigger] r@[k]).1 as int
                                <= t1 by {
                                assert(m1.dom().contains(r@[k].0@));
                                assert(m1[r@[k].0@] == r@[k].1 as int);
                            }
                        }
                    }
                    None => {
                        let ghost r_old = r@;
                        let exe_copy = self.entries[i].activity.exe.clone();
                        r.push((exe_copy, dur));
                        proof {
                            let key = s[i as int].activity.exe;
                            assert(!m0.dom().contains(key)) by {
                                if m0.dom().contains(key) {
                                    let k = choose|k: int|
                                        0 <= k < r_old.len() && (#[trigger] r_old[k]).0@ == key;
                                }
                            }
                            assert(m1 == m0.insert(
                                key,
                                0 + s[i as int].end - s[i as int].begin,
                            ));
                            assert(t1 == t0 + (s[i as int].end - s[i as int].begin));
                            assert(r@[r@.len() - 1].0@ == key);
                            assert forall|k: int|
                                0 <= k < r@.len() implies m1.dom().contains(
                                (#[trigger] r@[k]).0@,
                            ) && m1[r@[k].0@] == r@[k].1 as int by {
                                if k < r_old.len() {
                                    assert(r@[k] == r_old[k]);
                                    assert(r@[k].0@ != key);
                                    assert(m1[r@[k].0@] == m0[r@[k].0@]);
                                }
                            }
                            assert forall|key2: Seq<char>| #[trigger] m1.dom().contains(key2)
                                implies exists|k: int|
                                0 <= k < r@.len() && (#[trigger] r@[k]).0@ == key2 by {
                                if key2 == key {
                                    assert(r@[r@.len() - 1].0@ == key2);
                                } else {
                                    let k = choose|k: int|
                                        0 <= k < r_old.len() && (#[trigger] r_old[k]).0@ == key2;
                                    assert(r@[k].0@ == key2);
                                }
                            }
                            assert forall|k1: int, k2: int| 0 <= k1 < k2 < r@.len() implies (
                            #[trigger] r@[k1]).0@ != (#[trigger] r@[k2]).0@ by {
                                if k2 < r_old.len() {
                                    assert(r@[k1] == r_old[k1]);
                                    assert(r@[k2] == r_old[k2]);
                                } else {
                                    assert(r@[k1] == r_old[k1]);
                                    assert(r@[k2].0@ == key);
                                }
                            }
                            lemma_durations_bound(pre1, from as int, to as int);
                            assert forall|k: int|
                                0 <= k < r@.len() implies 0 <= (#[trigger] r@[k]).1 as int
                                <= t1 by {
                                assert(m1.dom().contains(r@[k].0@));
                                assert(m1[r@[k].0@] == r@[k].1 as int);
                            }
                        }
                    }
                }
            } else {
                proof {
                    assert(m1 == m0);
                    assert(t1 == t0);
                }
            }
            i = i + 1;
        }
        proof {
            assert(s.subrange(0, i as int) =~= s);
        }
        r
    }
}

} // verus!
