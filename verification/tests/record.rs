use jtail::record::{parse, record_from_members, JsonField};

#[test]
fn parses_a_typical_entry() {
    let line = r#"{"__REALTIME_TIMESTAMP":"1724582400123456","__CURSOR":"s=abc","_SYSTEMD_UNIT":"backend.service","_PID":"4242","PRIORITY":"3","MESSAGE":"boom"}"#;
    let r = parse("app1", line).unwrap();
    assert_eq!(r.host, "app1");
    assert_eq!(r.timestamp_us, 1_724_582_400_123_456);
    assert_eq!(r.cursor.as_deref(), Some("s=abc"));
    assert_eq!(r.unit.as_deref(), Some("backend.service"));
    assert_eq!(r.pid.as_deref(), Some("4242"));
    assert_eq!(r.priority, Some(3));
    assert_eq!(r.message, "boom");
}

#[test]
fn decodes_byte_array_messages() {
    let line = r#"{"__REALTIME_TIMESTAMP":"1","MESSAGE":[104,105]}"#;
    assert_eq!(parse("h", line).unwrap().message, "hi");
}

#[test]
fn falls_back_to_syslog_identifier() {
    let line = r#"{"__REALTIME_TIMESTAMP":"1","SYSLOG_IDENTIFIER":"sshd","MESSAGE":"x"}"#;
    assert_eq!(parse("h", line).unwrap().unit.as_deref(), Some("sshd"));
}

#[test]
fn rejects_garbage() {
    assert!(parse("h", "").is_none());
    assert!(parse("h", "not json").is_none());
    assert!(parse("h", r#"{"MESSAGE":"no timestamp"}"#).is_none());
}

#[test]
fn surrounding_white_space_is_ignored() {
    let line = "\u{a0}\t {\"__REALTIME_TIMESTAMP\":\"-5\"}\r\n\u{3000}";
    let r = parse("h", line).unwrap();
    assert_eq!(r.timestamp_us, -5);
    assert_eq!(r.message, "");
    assert_eq!(r.unit, None);
    assert_eq!(r.priority, None);
}

#[test]
fn a_timestamp_must_be_a_decimal_string() {
    assert!(parse("h", r#"{"__REALTIME_TIMESTAMP":12}"#).is_none());
    assert!(parse("h", r#"{"__REALTIME_TIMESTAMP":"12x"}"#).is_none());
    assert!(parse("h", r#"{"__REALTIME_TIMESTAMP":"9223372036854775808"}"#).is_none());
    assert_eq!(
        parse("h", r#"{"__REALTIME_TIMESTAMP":"-9223372036854775808"}"#).unwrap().timestamp_us,
        i64::MIN
    );
    assert!(parse("h", r#"["__REALTIME_TIMESTAMP"]"#).is_none());
}

#[test]
fn unit_sources_are_tried_in_order() {
    let line = r#"{"__REALTIME_TIMESTAMP":"1","UNIT":"init.scope","SYSLOG_IDENTIFIER":"x","_SYSTEMD_UNIT":"cron.service"}"#;
    assert_eq!(parse("h", line).unwrap().unit.as_deref(), Some("cron.service"));
    let line = r#"{"__REALTIME_TIMESTAMP":"1","UNIT":"init.scope","SYSLOG_IDENTIFIER":"x"}"#;
    assert_eq!(parse("h", line).unwrap().unit.as_deref(), Some("init.scope"));
    let line = r#"{"__REALTIME_TIMESTAMP":"1","_SYSTEMD_UNIT":7,"UNIT":"init.scope"}"#;
    assert_eq!(parse("h", line).unwrap().unit, None);
}

#[test]
fn pid_falls_back_to_syslog_pid() {
    let line = r#"{"__REALTIME_TIMESTAMP":"1","SYSLOG_PID":"77"}"#;
    assert_eq!(parse("h", line).unwrap().pid.as_deref(), Some("77"));
}

#[test]
fn unparsable_priorities_are_dropped() {
    let line = r#"{"__REALTIME_TIMESTAMP":"1","PRIORITY":"high"}"#;
    assert_eq!(parse("h", line).unwrap().priority, None);
    let line = r#"{"__REALTIME_TIMESTAMP":"1","PRIORITY":"300"}"#;
    assert_eq!(parse("h", line).unwrap().priority, None);
}

#[test]
fn byte_arrays_skip_non_numbers_and_truncate() {
    let line = r#"{"__REALTIME_TIMESTAMP":"1","MESSAGE":[104,"z",361,-1,1.5]}"#;
    assert_eq!(parse("h", line).unwrap().message, "hi");
    let line = r#"{"__REALTIME_TIMESTAMP":"1","MESSAGE":[255,104]}"#;
    assert_eq!(parse("h", line).unwrap().message, "\u{fffd}h");
}

#[test]
fn byte_arrays_holding_valid_utf8_read_back_as_text() {
    let line = r#"{"__REALTIME_TIMESTAMP":"1","MESSAGE":[99,97,102,195,169]}"#;
    assert_eq!(parse("h", line).unwrap().message, "café");
}

#[test]
fn members_give_a_record_with_fallbacks_and_byte_arrays() {
    let fields = vec![
        ("MESSAGE".to_string(), JsonField::Items(vec![Some(104), None, Some(361)])),
        ("__REALTIME_TIMESTAMP".to_string(), JsonField::Text("42".to_string())),
        ("UNIT".to_string(), JsonField::Text("cron.service".to_string())),
        ("SYSLOG_PID".to_string(), JsonField::Text("7".to_string())),
        ("PRIORITY".to_string(), JsonField::Other),
        ("MESSAGE".to_string(), JsonField::Text("second".to_string())),
    ];
    let r = record_from_members("h", &fields).unwrap();
    assert_eq!(r.host, "h");
    assert_eq!(r.timestamp_us, 42);
    assert_eq!(r.cursor, None);
    assert_eq!(r.unit.as_deref(), Some("cron.service"));
    assert_eq!(r.pid.as_deref(), Some("7"));
    assert_eq!(r.priority, None);
    assert_eq!(r.message, "hi");
}

#[test]
fn members_without_a_decimal_timestamp_give_nothing() {
    let missing = vec![("MESSAGE".to_string(), JsonField::Text("x".to_string()))];
    assert!(record_from_members("h", &missing).is_none());
    let bad = vec![("__REALTIME_TIMESTAMP".to_string(), JsonField::Text("1.5".to_string()))];
    assert!(record_from_members("h", &bad).is_none());
    let not_text = vec![("__REALTIME_TIMESTAMP".to_string(), JsonField::Other)];
    assert!(record_from_members("h", &not_text).is_none());
}
