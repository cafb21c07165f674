use log4tc::json::{Number, Value};
use log4tc::level::LogLevel;
use log4tc::maps::{ArgMap, NamedMap};
use log4tc::models::{LogEntry, LogRecord};
use log4tc::parser::AdsParser;
use log4tc::pipeline::{dispatch_record, entry_from_ads, plc_hostname_text};
use log4tc::timestamp::Timestamp;

fn s(text: &str) -> Value {
    Value::String(text.to_string())
}

fn is_uuid_v4(id: &str) -> bool {
    let b = id.as_bytes();
    b.len() == 36
        && b.iter().enumerate().all(|(i, c)| {
            if i == 8 || i == 13 || i == 18 || i == 23 {
                *c == b'-'
            } else {
                c.is_ascii_digit() || (b'a'..=b'f').contains(c)
            }
        })
        && b[14] == b'4'
        && matches!(b[19], b'8' | b'9' | b'a' | b'b')
}

#[test]
fn test_log_level_conversion() {
    assert_eq!(LogLevel::from_u8(0), Some(LogLevel::Trace));
    assert_eq!(LogLevel::from_u8(2), Some(LogLevel::Info));
    assert_eq!(LogLevel::from_u8(4), Some(LogLevel::Error));
    assert_eq!(LogLevel::from_u8(255), None);
}

#[test]
fn test_log_level_display() {
    assert_eq!(LogLevel::Trace.to_string(), "Trace");
    assert_eq!(LogLevel::Debug.to_string(), "Debug");
    assert_eq!(LogLevel::Info.to_string(), "Info");
    assert_eq!(LogLevel::Warn.to_string(), "Warn");
    assert_eq!(LogLevel::Error.to_string(), "Error");
    assert_eq!(LogLevel::Fatal.to_string(), "Fatal");
}

#[test]
fn test_log_level_otel_severity() {
    assert_eq!(LogLevel::Trace.to_otel_severity_number(), 1);
    assert_eq!(LogLevel::Info.to_otel_severity_number(), 9);
    assert_eq!(LogLevel::Warn.to_otel_severity_number(), 13);
    assert_eq!(LogLevel::Fatal.to_otel_severity_number(), 21);
    assert_eq!(LogLevel::Trace.to_otel_severity_text(), "TRACE");
    assert_eq!(LogLevel::Fatal.to_otel_severity_text(), "FATAL");
}

#[test]
fn test_log_entry_creation() {
    let entry = LogEntry::new(
        "192.168.1.1".to_string(),
        "plc-01".to_string(),
        "Test message".to_string(),
        "test.logger".to_string(),
        LogLevel::Info,
    );
    assert_eq!(entry.source, "192.168.1.1");
    assert_eq!(entry.level, LogLevel::Info);
    assert!(!entry.id.is_empty());
}

#[test]
fn test_log_record_from_entry() {
    let mut entry = LogEntry::new(
        "192.168.1.1".to_string(),
        "plc-01".to_string(),
        "Test message".to_string(),
        "test.logger".to_string(),
        LogLevel::Warn,
    );
    entry.project_name = "TestProject".to_string();
    entry.app_name = "TestApp".to_string();
    let record = LogRecord::from_log_entry(entry);
    assert_eq!(record.severity_number, 13);
    assert_eq!(
        record.resource_attributes.get("service.name"),
        Some(&Value::String("TestProject".to_string()))
    );
}

// ---- further cases ----

#[test]
fn level_numbers_round_trip() {
    for b in 0u8..=5 {
        let level = LogLevel::from_u8(b).unwrap();
        assert_eq!(level.as_u8(), b);
        assert_eq!(level.to_otel_severity_number(), 4 * b as i32 + 1);
    }
    for b in 6u8..=255 {
        assert_eq!(LogLevel::from_u8(b), None);
    }
    assert_eq!(LogLevel::Debug.to_otel_severity_text(), "DEBUG");
    assert_eq!(LogLevel::Info.to_otel_severity_text(), "INFO");
    assert_eq!(LogLevel::Warn.to_otel_severity_text(), "WARN");
    assert_eq!(LogLevel::Error.to_otel_severity_text(), "ERROR");
    assert!(LogLevel::Trace < LogLevel::Fatal);
}

#[test]
fn new_entry_has_a_random_v4_id_and_empty_fields() {
    let a = LogEntry::new("s".into(), "h".into(), "m".into(), "l".into(), LogLevel::Debug);
    let b = LogEntry::new("s".into(), "h".into(), "m".into(), "l".into(), LogLevel::Debug);
    assert!(is_uuid_v4(&a.id), "{}", a.id);
    assert_ne!(a.id, b.id);
    assert_eq!(a.task_index, 0);
    assert_eq!(a.task_name, "");
    assert_eq!(a.app_name, "");
    assert_eq!(a.project_name, "");
    assert_eq!(a.task_cycle_counter, 0);
    assert_eq!(a.online_change_count, 0);
    assert!(a.arguments.is_empty());
    assert!(a.context.is_empty());
}

#[test]
fn record_carries_every_attribute() {
    let mut entry = LogEntry::new(
        "10.0.0.5".to_string(),
        "plc-5000".to_string(),
        "Hello {0}".to_string(),
        "app.main".to_string(),
        LogLevel::Error,
    );
    entry.project_name = "Proj".to_string();
    entry.app_name = "App".to_string();
    entry.task_index = -3;
    entry.task_name = "Fast".to_string();
    entry.task_cycle_counter = 77;
    entry.online_change_count = 4;
    entry.plc_timestamp = Timestamp::from_unix(1_609_459_200, 0).unwrap();
    entry.clock_timestamp = Timestamp::from_unix(1_609_459_201, 5).unwrap();
    entry.arguments.insert(0, s("world"));
    entry.arguments.insert(12, Value::Bool(true));
    entry.context.insert("scope_1_user".to_string(), s("bob"));
    let record = LogRecord::from_log_entry(entry);
    assert_eq!(record.body, s("Hello {0}"));
    assert_eq!(record.severity_number, 17);
    assert_eq!(record.severity_text, "ERROR");
    assert_eq!(record.timestamp.secs(), 1_609_459_201);
    assert_eq!(record.timestamp.nanos(), 5);
    let r = &record.resource_attributes;
    assert_eq!(r.len(), 5);
    assert_eq!(r.get("service.name"), Some(&s("Proj")));
    assert_eq!(r.get("service.instance.id"), Some(&s("App")));
    assert_eq!(r.get("host.name"), Some(&s("plc-5000")));
    assert_eq!(r.get("process.pid"), Some(&Value::Number(Number::NegInt(-3))));
    assert_eq!(r.get("process.command_line"), Some(&s("Fast")));
    assert_eq!(record.scope_attributes.get("logger.name"), Some(&s("app.main")));
    let l = &record.log_attributes;
    assert_eq!(l.len(), 7);
    assert_eq!(l.get("scope_1_user"), Some(&s("bob")));
    assert_eq!(l.get("plc.timestamp"), Some(&s("2021-01-01T00:00:00+00:00")));
    assert_eq!(l.get("task.cycle"), Some(&Value::Number(Number::PosInt(77))));
    assert_eq!(l.get("online.changes"), Some(&Value::Number(Number::PosInt(4))));
    assert_eq!(l.get("source.address"), Some(&s("10.0.0.5")));
    assert_eq!(l.get("arg.0"), Some(&s("world")));
    assert_eq!(l.get("arg.12"), Some(&Value::Bool(true)));
}

#[test]
fn context_key_named_like_a_standard_attribute_is_overwritten() {
    let mut entry = LogEntry::new("src".into(), "h".into(), "m".into(), "l".into(), LogLevel::Info);
    entry.context.insert("source.address".to_string(), s("spoofed"));
    let record = LogRecord::from_log_entry(entry);
    assert_eq!(record.log_attributes.get("source.address"), Some(&s("src")));
    assert_eq!(record.log_attributes.len(), 4);
}

#[test]
fn rfc3339_text_keeps_fractional_seconds() {
    let t = Timestamp::from_unix(0, 123_000_000).unwrap();
    assert_eq!(t.to_rfc3339(), "1970-01-01T00:00:00.123+00:00");
    assert!(Timestamp::from_unix(0, 1_000_000_000).is_none());
}

#[test]
fn dispatch_record_fills_in_the_message() {
    let mut entry = LogEntry::new("s".into(), "h".into(), "User {0} did {what}".into(), "l".into(), LogLevel::Info);
    entry.arguments.insert(0, s("ann"));
    entry.context.insert("what".to_string(), s("login"));
    let record = dispatch_record(entry);
    assert_eq!(record.body, s("User ann did login"));
    assert_eq!(record.log_attributes.get("arg.0"), Some(&s("ann")));
}

#[test]
fn plc_hostname_is_the_peer_port() {
    assert_eq!(plc_hostname_text(0), "plc-0");
    assert_eq!(plc_hostname_text(50123), "plc-50123");
}

#[test]
fn entry_from_ads_copies_the_plc_fields() {
    let mut payload = vec![1u8, 3];
    payload.extend_from_slice(b"msg");
    payload.push(2);
    payload.extend_from_slice(b"lg");
    payload.extend_from_slice(&5u16.to_le_bytes());
    let ft: u64 = 116444736000000000 + 10_000_000 * 100;
    payload.extend_from_slice(&ft.to_le_bytes());
    payload.extend_from_slice(&(ft + 10_000_000).to_le_bytes());
    payload.extend_from_slice(&2i32.to_le_bytes());
    payload.push(1);
    payload.extend_from_slice(b"T");
    payload.extend_from_slice(&8u32.to_le_bytes());
    payload.push(1);
    payload.extend_from_slice(b"A");
    payload.push(1);
    payload.extend_from_slice(b"P");
    payload.extend_from_slice(&3u32.to_le_bytes());
    payload.push(1);
    payload.push(1);
    payload.extend_from_slice(&12i16.to_le_bytes());
    payload.push(1);
    payload.extend_from_slice(b"x");
    payload.push(1);
    payload.push(4);
    payload.extend_from_slice(&5i16.to_le_bytes());
    payload.extend_from_slice(&2.5f64.to_le_bytes());
    payload.push(2);
    payload.push(3);
    payload.push(1);
    payload.extend_from_slice(b"k");
    payload.extend_from_slice(&0i16.to_le_bytes());
    payload.push(0);
    let ads = AdsParser::parse(&payload).unwrap();
    let e = entry_from_ads(
        ads,
        "192.168.0.9".to_string(),
        4242,
        vec![String::new(), "2.5".to_string()],
        vec![String::new()],
    );
    assert!(is_uuid_v4(&e.id));
    assert_eq!(e.source, "192.168.0.9");
    assert_eq!(e.hostname, "plc-4242");
    assert_eq!(e.message, "msg");
    assert_eq!(e.logger, "lg");
    assert_eq!(e.level, LogLevel::Fatal);
    assert_eq!(e.plc_timestamp.secs(), 100);
    assert_eq!(e.clock_timestamp.secs(), 101);
    assert_eq!(e.task_index, 2);
    assert_eq!(e.task_name, "T");
    assert_eq!(e.task_cycle_counter, 8);
    assert_eq!(e.app_name, "A");
    assert_eq!(e.project_name, "P");
    assert_eq!(e.online_change_count, 3);
    assert_eq!(e.arguments.len(), 2);
    assert_eq!(e.arguments.get(1), Some(&s("x")));
    assert_eq!(e.arguments.get(4), Some(&Value::Number(Number::Float("2.5".to_string()))));
    assert_eq!(e.context.get("scope_3_k"), Some(&Value::Null));
}

#[test]
fn maps_replace_in_place_and_append_new_keys() {
    let mut m = NamedMap::new();
    m.insert("a".to_string(), 1u8);
    m.insert("b".to_string(), 2u8);
    m.insert("a".to_string(), 3u8);
    assert_eq!(m.len(), 2);
    assert_eq!(m.entries()[0], ("a".to_string(), 3u8));
    assert_eq!(m.entries()[1], ("b".to_string(), 2u8));
    assert!(m.contains_key("b"));
    assert!(!m.contains_key("c"));
    let mut a = ArgMap::new();
    a.insert(5, 1u8);
    a.insert(5, 9u8);
    assert_eq!(a.get(5), Some(&9u8));
    assert_eq!(a.get(6), None);
    assert_eq!(a.into_entries(), vec![(5usize, 9u8)]);
}
