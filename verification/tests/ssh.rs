use jtail::ssh::{
    micros_since_epoch, remote_command, shell_quote, ssh_arguments, unix_micros, Event, HostSession,
    JournalArgs, Reconnect, SessionEnd, StderrGate,
};

fn args() -> JournalArgs {
    JournalArgs {
        units: vec!["backend.service".into()],
        priority: Some(4),
        since: None,
        lines: 10,
    }
}

#[test]
fn builds_the_initial_command() {
    let cmd = remote_command(&args(), None);
    assert_eq!(
        cmd,
        "journalctl --output=json --follow --no-pager --unit=backend.service --priority=4 --lines=10"
    );
}

#[test]
fn since_replaces_the_startup_tail() {
    let mut a = args();
    a.since = Some("-1h".into());
    let cmd = remote_command(&a, None);
    assert!(cmd.contains("--since=-1h"));
    assert!(!cmd.contains("--lines"));
}

#[test]
fn cursor_resume_overrides_the_start_position() {
    let mut a = args();
    a.since = Some("-1h".into());
    let cmd = remote_command(&a, Some("s=deadbeef;i=1"));
    assert!(cmd.ends_with("'--after-cursor=s=deadbeef;i=1'"));
    assert!(!cmd.contains("--since"));
    assert!(!cmd.contains("--lines"));
}

#[test]
fn quotes_only_when_needed() {
    assert_eq!(
        shell_quote("--unit=backend.service"),
        "--unit=backend.service"
    );
    assert_eq!(shell_quote("--since=1 hour ago"), "'--since=1 hour ago'");
    assert_eq!(shell_quote("it's"), r#"'it'\''s'"#);
}

#[test]
fn empty_words_are_quoted() {
    assert_eq!(shell_quote(""), "''");
    assert_eq!(shell_quote("a$b"), "'a$b'");
}

#[test]
fn a_bare_command_tails_the_given_lines() {
    let a = JournalArgs { units: vec![], priority: None, since: None, lines: 0 };
    assert_eq!(
        remote_command(&a, None),
        "journalctl --output=json --follow --no-pager --lines=0"
    );
}

#[test]
fn ssh_runs_in_batch_mode_with_the_remote_command_last() {
    let argv = ssh_arguments("web@prod-1", &args(), None);
    assert_eq!(
        argv,
        vec![
            "-o",
            "BatchMode=yes",
            "-o",
            "ConnectTimeout=10",
            "-o",
            "ServerAliveInterval=15",
            "-o",
            "ServerAliveCountMax=3",
            "-T",
            "web@prod-1",
            "journalctl --output=json --follow --no-pager --unit=backend.service --priority=4 --lines=10",
        ]
    );
}

#[test]
fn sessions_count_entries_and_follow_the_cursor() {
    let mut s = HostSession::begin(Some("s=old".into()), 100);
    assert!(s.accept_line("h", "garbage").is_none());
    assert_eq!(s.received, 0);
    let ev = s.accept_line("h", r#"{"__REALTIME_TIMESTAMP":"50","__CURSOR":"s=a"}"#);
    match ev {
        Some(Event::Entry { record, live }) => {
            assert_eq!(record.timestamp_us, 50);
            assert!(!live);
        }
        _ => panic!("no entry"),
    }
    assert_eq!(s.cursor.as_deref(), Some("s=a"));
    let ev = s.accept_line("h", r#"{"__REALTIME_TIMESTAMP":"100"}"#);
    assert!(matches!(ev, Some(Event::Entry { live: true, .. })));
    assert_eq!(s.cursor.as_deref(), Some("s=a"));
    assert_eq!(s.received, 2);
}

#[test]
fn reconnects_back_off_up_to_thirty_seconds() {
    let mut r = Reconnect::new();
    let mut waits = Vec::new();
    for _ in 0..7 {
        let (text, wait) = r.after_session(&SessionEnd::Finished(0));
        assert_eq!(text, format!("connection failed, retrying in {wait}s"));
        waits.push(wait);
    }
    assert_eq!(waits, vec![1, 2, 4, 8, 16, 30, 30]);
    let (text, wait) = r.after_session(&SessionEnd::Finished(5));
    assert_eq!((text.as_str(), wait), ("connection lost, retrying in 1s", 1));
    let (text, wait) = r.after_session(&SessionEnd::Failed("failed to spawn ssh".into()));
    assert_eq!((text.as_str(), wait), ("failed to spawn ssh, retrying in 2s", 2));
}

#[test]
fn only_the_first_non_blank_diagnostics_are_shown() {
    let mut g = StderrGate::new();
    assert_eq!(g.accept("  "), None);
    assert_eq!(g.accept("Permission denied").as_deref(), Some("ssh: Permission denied"));
    assert_eq!(g.accept("b").as_deref(), Some("ssh: b"));
    assert_eq!(g.accept("c").as_deref(), Some("ssh: c"));
    assert_eq!(g.accept("d"), None);
}

#[test]
fn clock_readings_become_microseconds() {
    assert_eq!(micros_since_epoch(None), 0);
    assert_eq!(micros_since_epoch(Some((2, 345_678_901))), 2_345_678);
    assert!(unix_micros() > 1_600_000_000_000_000);
}
