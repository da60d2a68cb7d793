use trackme::activity::Activity;
use trackme::config::{Config, StorageDescription};
use trackme::storage::Storage;
use trackme::tagger::Tagger;
use trackme::tracker::Tracker;

fn act(pid: u32, exe: &str) -> Activity {
    Activity {
        pid,
        exe: exe.to_owned(),
        title: "w".to_owned(),
    }
}

#[test]
fn tracked_segments_flow_into_storage_in_timeline_order() {
    let config = Config {
        storage: StorageDescription { location: None },
        blacklist: Vec::new(),
        tagger: Tagger::new(),
    };
    let mut tracker = Tracker::new();
    let mut st = Storage::new();

    let ticks: [(u32, &str, i64); 7] = [
        (1, "a.exe", 1_000),
        (1, "a.exe", 2_000),
        (2, "b.exe", 3_000),
        (2, "b.exe", 4_000),
        (1, "a.exe", 5_000),
        (1, "a.exe", 6_000),
        (1, "a.exe", 7_000),
    ];
    for (pid, exe, now) in ticks.iter() {
        if let Some(entry) = tracker.track(act(*pid, exe), *now, 0, &config) {
            st.store(entry);
        }
    }
    if let Some(entry) = tracker.flush() {
        st.store(entry);
    }

    assert_eq!(st.len(), 3);
    let all = st.select(0, i64::MAX);
    assert_eq!(all.len(), 3);
    assert_eq!(all[0].activity.exe, "a.exe");
    assert_eq!((all[0].begin, all[0].end), (1_000, 2_000));
    assert_eq!(all[1].activity.exe, "b.exe");
    assert_eq!((all[1].begin, all[1].end), (3_000, 4_000));
    assert_eq!(all[2].activity.exe, "a.exe");
    assert_eq!((all[2].begin, all[2].end), (5_000, 7_000));

    let totals = st.duration_by_exe(0, i64::MAX);
    let a = totals.iter().find(|(k, _)| k == "a.exe").map(|(_, v)| *v);
    let b = totals.iter().find(|(k, _)| k == "b.exe").map(|(_, v)| *v);
    assert_eq!(a, Some(3_000));
    assert_eq!(b, Some(1_000));
}

#[test]
fn blacklisted_first_tick_flushes_nothing() {
    let config = Config {
        storage: StorageDescription { location: None },
        blacklist: vec!["all".to_owned()],
        tagger: Tagger {
            matchers: vec![trackme::tagger::Tag {
                name: "all".to_owned(),
                matcher: trackme::matcher::Matcher::parse("exe contains ''").unwrap(),
            }],
        },
    };
    let mut tracker = Tracker::new();
    assert!(tracker.track(act(1, "a.exe"), 1_000, 0, &config).is_none());
    assert!(tracker.flush().is_none());
}

#[test]
fn blacklisted_names_are_recognized() {
    let config = Config {
        storage: StorageDescription { location: None },
        blacklist: vec!["games".to_owned(), "video".to_owned()],
        tagger: Tagger::new(),
    };
    assert!(config.blacklisted("games"));
    assert!(config.blacklisted("video"));
    assert!(!config.blacklisted("work"));
    assert!(!config.blacklisted(""));
}
