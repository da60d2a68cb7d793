use trackme::activity::Activity;
use trackme::config::{Config, StorageDescription};
use trackme::matcher::Matcher;
use trackme::tagger::{Tag, Tagger};
use trackme::tracker::Tracker;

fn act(pid: u32, exe: &str, title: &str) -> Activity {
    Activity {
        pid,
        exe: exe.to_owned(),
        title: title.to_owned(),
    }
}

fn empty_config() -> Config {
    Config {
        storage: StorageDescription { location: None },
        blacklist: Vec::new(),
        tagger: Tagger::new(),
    }
}

fn blacklisting_config(rule: &str, name: &str) -> Config {
    Config {
        storage: StorageDescription { location: None },
        blacklist: vec![name.to_owned()],
        tagger: Tagger {
            matchers: vec![Tag {
                name: name.to_owned(),
                matcher: Matcher::parse(rule).unwrap(),
            }],
        },
    }
}

#[test]
fn merges_repeated_activity_into_two_entries() {
    let config = empty_config();
    let mut tracker = Tracker::new();
    let a = act(1, "a.exe", "A");
    let b = act(2, "b.exe", "B");

    assert!(tracker.track(a.duplicate(), 1000, 0, &config).is_none());
    assert!(tracker.track(a.duplicate(), 2000, 0, &config).is_none());
    assert!(tracker.track(a.duplicate(), 3000, 0, &config).is_none());

    let first = tracker.track(b.duplicate(), 4000, 0, &config).unwrap();
    assert_eq!(first.begin, 1000);
    assert_eq!(first.end, 3000);
    assert_eq!(first.activity.exe, "a.exe");

    assert!(tracker.track(b.duplicate(), 5000, 0, &config).is_none());

    let second = tracker.flush().unwrap();
    assert_eq!(second.begin, 4000);
    assert_eq!(second.end, 5000);
    assert_eq!(second.activity.exe, "b.exe");

    assert!(tracker.flush().is_none());
}

#[test]
fn blacklisted_activity_flushes_and_is_never_recorded() {
    let config = blacklisting_config("exe == 'secret.exe'", "private");
    let mut tracker = Tracker::new();
    let open = act(1, "work.exe", "Work");
    let secret = act(2, "secret.exe", "Secret");

    assert!(tracker.track(open.duplicate(), 1000, 0, &config).is_none());
    assert!(tracker.track(open.duplicate(), 2000, 0, &config).is_none());
    assert!(tracker.track(open.duplicate(), 3000, 0, &config).is_none());

    let flushed = tracker.track(secret.duplicate(), 4000, 0, &config).unwrap();
    assert_eq!(flushed.begin, 1000);
    assert_eq!(flushed.end, 3000);
    assert_eq!(flushed.activity.exe, "work.exe");

    assert!(tracker.track(secret.duplicate(), 5000, 0, &config).is_none());
    assert!(tracker.track(secret.duplicate(), 6000, 0, &config).is_none());
    assert!(tracker.flush().is_none());
}

#[test]
fn long_idle_replaces_activity_with_the_idle_sentinel() {
    let config = empty_config();
    let mut tracker = Tracker::new();
    let a = act(1, "a.exe", "A");

    assert!(tracker.track(a.duplicate(), 1000, 0, &config).is_none());
    assert!(tracker.track(a.duplicate(), 2000, 0, &config).is_none());

    let flushed = tracker.track(a.duplicate(), 3000, 300001, &config).unwrap();
    assert_eq!(flushed.begin, 1000);
    assert_eq!(flushed.end, 2000);
    assert_eq!(flushed.activity.exe, "a.exe");

    let idle_entry = tracker.flush().unwrap();
    assert_eq!(idle_entry.begin, 3000);
    assert_eq!(idle_entry.end, 3000);
    assert_eq!(idle_entry.activity.pid, 0);
    assert_eq!(idle_entry.activity.exe, "idle");
    assert_eq!(idle_entry.activity.title, "idle");
}

#[test]
fn idle_at_the_threshold_is_not_idle_yet() {
    let config = empty_config();
    let mut tracker = Tracker::new();
    let a = act(1, "a.exe", "A");
    assert!(tracker.track(a.duplicate(), 1000, 300000, &config).is_none());
    let e = tracker.flush().unwrap();
    assert_eq!(e.activity.exe, "a.exe");
}

#[test]
fn same_strings_different_pid_is_a_different_activity() {
    let config = empty_config();
    let mut tracker = Tracker::new();
    assert!(tracker
        .track(act(1, "a.exe", "A"), 1000, 0, &config)
        .is_none());
    let flushed = tracker.track(act(2, "a.exe", "A"), 2000, 0, &config).unwrap();
    assert_eq!(flushed.begin, 1000);
    assert_eq!(flushed.end, 1000);
}

#[test]
fn first_matching_tag_wins() {
    let tagger = Tagger {
        matchers: vec![
            Tag {
                name: "first".to_owned(),
                matcher: Matcher::parse("exe contains 'x'").unwrap(),
            },
            Tag {
                name: "second".to_owned(),
                matcher: Matcher::parse("exe == 'x'").unwrap(),
            },
        ],
    };
    assert_eq!(tagger.tag(&act(1, "x", "t")), Some("first"));
    assert_eq!(tagger.tag(&act(1, "y", "t")), None);
}
