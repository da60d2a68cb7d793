use trackme::activity::Activity;
use trackme::entry::Entry;
use trackme::storage::Storage;

fn entry(exe: &str, begin: i64, end: i64) -> Entry {
    Entry {
        begin,
        end,
        activity: Activity {
            pid: 7,
            exe: exe.to_owned(),
            title: "T".to_owned(),
        },
    }
}

fn durations(r: &[(String, i64)], key: &str) -> Option<i64> {
    r.iter().find(|(k, _)| k == key).map(|(_, v)| *v)
}

#[test]
fn duration_by_exe_sums_per_executable() {
    let mut st = Storage::new();
    st.store(entry("a.exe", 0, 10_000));
    st.store(entry("a.exe", 20_000, 40_000));
    st.store(entry("a.exe", 50_000, 55_000));
    st.store(entry("b.exe", 60_000, 67_000));

    let r = st.duration_by_exe(0, 100_000);
    assert_eq!(r.len(), 2);
    assert_eq!(durations(&r, "a.exe"), Some(35_000));
    assert_eq!(durations(&r, "b.exe"), Some(7_000));
}

#[test]
fn duration_by_exe_counts_only_intersecting_entries() {
    let mut st = Storage::new();
    st.store(entry("a.exe", 0, 10_000));
    st.store(entry("b.exe", 20_000, 30_000));
    let r = st.duration_by_exe(15_000, 40_000);
    assert_eq!(r.len(), 1);
    assert_eq!(durations(&r, "b.exe"), Some(10_000));
    assert_eq!(durations(&r, "a.exe"), None);
}

#[test]
fn select_returns_intersecting_entries_in_begin_order() {
    let mut st = Storage::new();
    st.store(entry("a.exe", 0, 10_000));
    st.store(entry("b.exe", 10_000, 20_000));
    st.store(entry("c.exe", 30_000, 40_000));
    st.store(entry("d.exe", 50_000, 60_000));

    let r = st.select(15_000, 35_000);
    assert_eq!(r.len(), 2);
    assert_eq!(r[0].activity.exe, "b.exe");
    assert_eq!(r[1].activity.exe, "c.exe");
    for e in &r {
        assert!(e.begin < 35_000 && e.end >= 15_000);
    }
    for w in r.windows(2) {
        assert!(w[0].begin <= w[1].begin);
    }
}

#[test]
fn select_is_empty_outside_the_range() {
    let mut st = Storage::new();
    st.store(entry("a.exe", 10_000, 20_000));
    assert!(st.select(0, 10_000).is_empty());
    assert!(st.select(20_001, 30_000).is_empty());
    assert_eq!(st.select(20_000, 30_000).len(), 1);
    assert_eq!(st.select(0, 10_001).len(), 1);
}

#[test]
fn empty_storage_answers_empty() {
    let st = Storage::new();
    assert_eq!(st.len(), 0);
    assert!(st.select(0, i64::MAX).is_empty());
    assert!(st.active_dates().is_empty());
    assert!(st.duration_by_exe(0, i64::MAX).is_empty());
}

const DAY: i64 = 86_400_000;

#[test]
fn active_dates_are_distinct_midnights() {
    let mut st = Storage::new();
    st.store(entry("a.exe", 1_000, 2_000));
    st.store(entry("b.exe", 3_000, 4_000));
    st.store(entry("c.exe", DAY + 5_000, DAY + 6_000));

    let mut dates = st.active_dates();
    dates.sort();
    assert_eq!(dates, vec![0, DAY]);
}

#[test]
fn entry_spanning_midnight_is_active_on_both_days() {
    let mut st = Storage::new();
    st.store(entry("a.exe", DAY - 1_000, DAY + 1_000));
    let mut dates = st.active_dates();
    dates.sort();
    assert_eq!(dates, vec![0, DAY]);
}

#[test]
fn entry_new_opens_a_point_segment() {
    let a = Activity {
        pid: 5,
        exe: "a.exe".to_owned(),
        title: "A".to_owned(),
    };
    let e = Entry::new(a, 42_000);
    assert_eq!(e.begin, 42_000);
    assert_eq!(e.end, 42_000);
    assert_eq!(e.activity.pid, 5);
}
