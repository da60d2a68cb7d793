use trackme::activity::{exe_name, title, Activity};
use trackme::matcher::{Field, Matcher};
use trackme::parser::ParseError;

fn activity_with_title(title: &str) -> Activity {
    Activity {
        pid: 123,
        exe: "TEST_EXE.exe".to_owned(),
        title: title.to_owned(),
    }
}

fn activity_with_exe(exe: &str) -> Activity {
    Activity {
        pid: 321,
        exe: exe.to_owned(),
        title: "TEST_TITLE".to_owned(),
    }
}

#[test]
fn exe_eq() {
    let matcher = Matcher::parse("exe == 'kekus.exe'").unwrap();
    assert!(!matcher.matches(&activity_with_title("kekus.exe")));
    assert!(matcher.matches(&activity_with_exe("kekus.exe")));
}

#[test]
fn title_eq() {
    let matcher = Matcher::parse("title == 'kekus'").unwrap();
    assert!(!matcher.matches(&activity_with_exe("kekus")));
    assert!(matcher.matches(&activity_with_title("kekus")));
}

#[test]
fn exe_eq_or_title_eq() {
    let matcher = Matcher::parse("exe == 'kekus.exe' or title == 'kekus'").unwrap();
    assert!(matcher.matches(&activity_with_exe("kekus.exe")));
    assert!(matcher.matches(&activity_with_title("kekus")));
    assert!(!matcher.matches(&activity_with_exe("alloe.exe")));
    assert!(!matcher.matches(&activity_with_title("arbue")));
}

#[test]
fn exe_ends_with() {
    let matcher = Matcher::parse("exe ends with 'firefox.exe'").unwrap();
    assert!(matcher.matches(&activity_with_exe("firefox.exe")));
    assert!(matcher.matches(&activity_with_exe(
        "C:\\Program Files\\firefox\\firefox.exe"
    )));
    assert!(!matcher.matches(&activity_with_exe("C:\\firefox.exe\\actually_a_directory")));
}

#[test]
fn matcher_exe_eq() {
    let matcher = Matcher::parse("exe == 'kekus.exe'").unwrap();
    assert!(!matcher.matches(&activity_with_title("kekus.exe")));
    assert!(matcher.matches(&activity_with_exe("kekus.exe")));
}

#[test]
fn matcher_title_eq() {
    let matcher = Matcher::parse("title == 'kekus'").unwrap();
    assert!(!matcher.matches(&activity_with_exe("kekus")));
    assert!(matcher.matches(&activity_with_title("kekus")));
}

#[test]
fn matcher_exe_eq_or_title_eq() {
    let matcher = Matcher::parse("exe == 'kekus.exe' or title == 'kekus'").unwrap();
    assert!(matcher.matches(&activity_with_exe("kekus.exe")));
    assert!(matcher.matches(&activity_with_title("kekus")));
    assert!(!matcher.matches(&activity_with_exe("alloe.exe")));
    assert!(!matcher.matches(&activity_with_title("arbue")));
}

#[test]
fn matcher_exe_ends_with() {
    let matcher = Matcher::parse("exe ends with 'firefox.exe'").unwrap();
    assert!(matcher.matches(&activity_with_exe("firefox.exe")));
    assert!(matcher.matches(&activity_with_exe(
        "C:\\Program Files\\firefox\\firefox.exe"
    )));
    assert!(!matcher.matches(&activity_with_exe("C:\\firefox.exe\\actually_a_directory")));
}

#[test]
fn not_eq_and_starts_with_and_contains() {
    let m = Matcher::parse("exe != 'a.exe'").unwrap();
    assert!(m.matches(&activity_with_exe("b.exe")));
    assert!(!m.matches(&activity_with_exe("a.exe")));

    let m = Matcher::parse("title starts with 'Mozilla'").unwrap();
    assert!(m.matches(&activity_with_title("Mozilla Firefox")));
    assert!(!m.matches(&activity_with_title("GNU Emacs")));

    let m = Matcher::parse("title contains 'Fire'").unwrap();
    assert!(m.matches(&activity_with_title("Mozilla Firefox")));
    assert!(!m.matches(&activity_with_title("Mozilla Thunderbird")));
    let m = Matcher::parse("title contains ''").unwrap();
    assert!(m.matches(&activity_with_title("anything")));
}

#[test]
fn regex_matches_uses_the_pattern() {
    let m = Matcher::parse("exe matches 'fire.+x'").unwrap();
    assert!(m.matches(&activity_with_exe("firefox")));
    assert!(!m.matches(&activity_with_exe("fire")));
    assert!(m.matches(&activity_with_exe("the firefox binary")));
}

#[test]
fn invalid_regex_fails_at_parse_time() {
    let r = Matcher::parse("exe matches '('");
    assert!(matches!(r, Err(ParseError::Syntax)));
}

#[test]
fn trailing_garbage_is_rejected() {
    let r = Matcher::parse("exe == 'a' nonsense");
    assert!(matches!(r, Err(ParseError::TrailingInput)));
    let r = Matcher::parse("exe = 'a'");
    assert!(matches!(r, Err(ParseError::Syntax)));
    let r = Matcher::parse("");
    assert!(matches!(r, Err(ParseError::Syntax)));
    let r = Matcher::parse("exe == 'unterminated");
    assert!(matches!(r, Err(ParseError::Syntax)));
}

#[test]
fn trailing_whitespace_is_unconsumed_input() {
    let r = Matcher::parse("exe == 'a' ");
    assert!(matches!(r, Err(ParseError::TrailingInput)));
}

#[test]
fn rendering_is_stable() {
    let text = "exe == 'a' and title == 'b' and title == 'c'";
    let m = Matcher::parse(text).unwrap();
    assert_eq!(m.render(), text);
    let text = "title matches 'a+b' or exe != 'q'";
    let m = Matcher::parse(text).unwrap();
    assert_eq!(m.render(), text);
}

#[test]
fn whitespace_between_tokens_is_insignificant() {
    let m = Matcher::parse("  exe\t==\n'a.exe'").unwrap();
    assert!(m.matches(&activity_with_exe("a.exe")));
}

#[test]
fn escaped_quote_stays_in_the_literal() {
    let m = Matcher::parse("title == 'it\\'s'").unwrap();
    assert!(m.matches(&activity_with_title("it\\'s")));
    assert!(!m.matches(&activity_with_title("it's")));
}

#[test]
fn render_round_trips() {
    let texts = [
        "exe == 'kekus.exe'",
        "title != 'x'",
        "exe starts with 'C:\\\\Users'",
        "title contains 'Fire' and exe ends with '.exe'",
        "exe == 'a' and title == 'b' or title matches 'c+'",
    ];
    let samples = [
        activity_with_exe("kekus.exe"),
        activity_with_exe("a"),
        activity_with_title("Firefox ccc"),
        activity_with_title("b"),
        activity_with_exe("C:\\x.exe"),
    ];
    for text in texts.iter() {
        let m1 = Matcher::parse(text).unwrap();
        let rendered = m1.render();
        let m2 = Matcher::parse(&rendered).unwrap();
        assert_eq!(rendered, m2.render());
        for a in samples.iter() {
            assert_eq!(m1.matches(a), m2.matches(a));
        }
    }
}

#[test]
fn precedence_and_binds_tighter_than_or() {
    let m = Matcher::parse("exe == 'a' and title == 'b' or title == 'c'").unwrap();
    let a_b = Activity {
        pid: 1,
        exe: "a".to_owned(),
        title: "b".to_owned(),
    };
    let a_x = Activity {
        pid: 1,
        exe: "a".to_owned(),
        title: "x".to_owned(),
    };
    let z_c = Activity {
        pid: 1,
        exe: "z".to_owned(),
        title: "c".to_owned(),
    };
    assert!(m.matches(&a_b));
    assert!(!m.matches(&a_x));
    assert!(m.matches(&z_c));

    let m = Matcher::parse("exe == 'a' or title == 'b' and title == 'c'").unwrap();
    let a_any = Activity {
        pid: 1,
        exe: "a".to_owned(),
        title: "zzz".to_owned(),
    };
    let z_b = Activity {
        pid: 1,
        exe: "z".to_owned(),
        title: "b".to_owned(),
    };
    assert!(m.matches(&a_any));
    assert!(!m.matches(&z_b));
}

#[test]
fn field_helpers() {
    let a = activity_with_exe("some.exe");
    assert_eq!(exe_name(&a), "some.exe");
    assert_eq!(title(&a), "TEST_TITLE");
    assert_eq!(Field::Exe.name(), "exe");
    assert_eq!(Field::Title.name(), "title");
    assert_eq!(Field::Exe.get_from(&a), "some.exe");
    assert_eq!(Field::Title.get_from(&a), "TEST_TITLE");
}
