use jtail::cli::{Cli, SettingsError};
use jtail::record::Record;

fn cli() -> Cli {
    Cli {
        hosts: vec!["app1".into()],
        unit: vec!["backend".into(), "cron.timer".into()],
        priority: Some("warning".into()),
        since: None,
        lines: 10,
        grep: Some("boom".into()),
        window_ms: 300,
        no_color: false,
    }
}

#[test]
fn settings_normalize_units_and_parse_options() {
    let s = cli().settings().ok().unwrap();
    assert_eq!(s.journal.units, vec!["backend.service", "cron.timer"]);
    assert_eq!(s.journal.priority, Some(4));
    assert_eq!(s.journal.lines, 10);
    assert_eq!(s.window_ns, 300_000_000);
    let rec = Record {
        host: "app1".into(),
        timestamp_us: 0,
        cursor: None,
        unit: Some("backend.service".into()),
        pid: None,
        priority: Some(3),
        message: "boom".into(),
    };
    assert!(s.filters.matches(&rec));
}

#[test]
fn a_bad_priority_is_reported_before_a_bad_pattern() {
    let mut c = cli();
    c.priority = Some("loud".into());
    c.grep = Some("(".into());
    assert!(matches!(c.settings(), Err(SettingsError::Priority(_))));
    c.priority = None;
    assert!(matches!(c.settings(), Err(SettingsError::Grep(_))));
}

#[test]
fn huge_windows_saturate() {
    let mut c = cli();
    c.window_ms = u64::MAX;
    assert_eq!(c.settings().ok().unwrap().window_ns, u64::MAX);
}

#[test]
fn color_needs_a_terminal_and_no_opt_out() {
    let c = cli();
    assert!(c.color_enabled(false, true));
    assert!(!c.color_enabled(true, true));
    assert!(!c.color_enabled(false, false));
    let mut off = cli();
    off.no_color = true;
    assert!(!off.color_enabled(false, true));
}
