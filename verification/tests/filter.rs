use jtail::filter::{normalize_unit, parse_priority, Filters, Grep};
use jtail::record::Record;

fn record(unit: Option<&str>, priority: Option<u8>, message: &str) -> Record {
    Record {
        host: "h".into(),
        timestamp_us: 0,
        cursor: None,
        unit: unit.map(Into::into),
        pid: None,
        priority,
        message: message.into(),
    }
}

#[test]
fn bare_unit_names_match_their_service() {
    let f = Filters::new(&["backend".into()], None, None);
    assert!(f.matches(&record(Some("backend.service"), None, "")));
    assert!(!f.matches(&record(Some("nginx.service"), None, "")));
    assert!(!f.matches(&record(None, None, "")));
}

#[test]
fn suffixed_unit_names_pass_through() {
    assert_eq!(normalize_unit("docker.socket"), "docker.socket");
    assert_eq!(normalize_unit("backend"), "backend.service");
}

#[test]
fn priority_limit_hides_less_severe_entries() {
    let f = Filters::new(&[], Some(4), None);
    assert!(f.matches(&record(None, Some(3), "")));
    assert!(f.matches(&record(None, Some(4), "")));
    assert!(!f.matches(&record(None, Some(6), "")));
    assert!(f.matches(&record(None, None, "")));
}

#[test]
fn grep_matches_the_message() {
    let f = Filters::new(&[], None, Some(Grep::new("Out.fMemory").ok().unwrap()));
    assert!(f.matches(&record(None, None, "java.lang.OutOfMemoryError")));
    assert!(!f.matches(&record(None, None, "all good")));
}

#[test]
fn priority_names_and_numbers_parse() {
    assert_eq!(parse_priority("warning").ok().unwrap(), 4);
    assert_eq!(parse_priority("err").ok().unwrap(), 3);
    assert_eq!(parse_priority("7").ok().unwrap(), 7);
    assert!(parse_priority("8").is_err());
    assert!(parse_priority("loud").is_err());
}

#[test]
fn every_level_name_and_alias_parses() {
    let names = [
        ("emerg", 0),
        ("panic", 0),
        ("alert", 1),
        ("crit", 2),
        ("err", 3),
        ("error", 3),
        ("warning", 4),
        ("warn", 4),
        ("notice", 5),
        ("info", 6),
        ("debug", 7),
        ("0", 0),
        ("+5", 5),
        ("007", 7),
    ];
    for (name, level) in names {
        assert_eq!(parse_priority(name).ok(), Some(level), "{name}");
    }
}

#[test]
fn invalid_priorities_keep_what_was_given() {
    for bad in ["", "-1", " 3", "3 ", "256", "Warning", "+"] {
        match parse_priority(bad) {
            Err(e) => assert_eq!(e.given, bad),
            Ok(p) => panic!("{bad:?} parsed as {p}"),
        }
    }
}

#[test]
fn unit_names_with_any_type_suffix_stay() {
    assert_eq!(normalize_unit("sshd"), "sshd.service");
    assert_eq!(normalize_unit("backup.timer"), "backup.timer");
    assert_eq!(normalize_unit(""), ".service");
}

#[test]
fn unit_filter_keeps_any_listed_unit() {
    let f = Filters::new(&["backend".into(), "nginx.service".into()], None, None);
    assert!(f.matches(&record(Some("backend.service"), None, "")));
    assert!(f.matches(&record(Some("nginx.service"), None, "")));
    assert!(!f.matches(&record(Some("backend"), None, "")));
}

#[test]
fn all_filters_must_agree() {
    let f = Filters::new(&["db".into()], Some(3), Some(Grep::new("dead(lock)?").ok().unwrap()));
    assert!(f.matches(&record(Some("db.service"), Some(2), "deadlock found")));
    assert!(!f.matches(&record(Some("db.service"), Some(5), "deadlock found")));
    assert!(!f.matches(&record(Some("db.service"), Some(2), "all fine")));
    assert!(!f.matches(&record(Some("web.service"), Some(2), "deadlock found")));
}

#[test]
fn an_invalid_pattern_is_refused() {
    match Grep::new("(unclosed") {
        Err(e) => {
            assert_eq!(e.pattern, "(unclosed");
            assert!(!e.reason.is_empty());
        }
        Ok(_) => panic!("pattern compiled"),
    }
}
