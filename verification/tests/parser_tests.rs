use chrono::Utc;
use log4tc::errors::AdsError;
use log4tc::level::LogLevel;
use log4tc::parser::{AdsParser, AdsProtocolVersion, MAX_ARGUMENTS, MAX_CONTEXT_VARS};
use log4tc::reader::BytesReader;
use log4tc::values::AdsValue;

/// Payload in the PLC's FB_LogEntry layout: one-byte string lengths, a
/// two-byte level, FILETIME timestamps, then the end marker.
fn build_test_payload(message: &str, logger: &str, level: u8) -> Vec<u8> {
    let mut payload = vec![1];
    payload.push(message.len() as u8);
    payload.extend_from_slice(message.as_bytes());
    payload.push(logger.len() as u8);
    payload.extend_from_slice(logger.as_bytes());
    payload.extend_from_slice(&(level as u16).to_le_bytes());
    let unix_now = Utc::now().timestamp() as u64;
    let filetime = (unix_now * 10_000_000) + 116444736000000000;
    payload.extend_from_slice(&filetime.to_le_bytes());
    payload.extend_from_slice(&filetime.to_le_bytes());
    payload.extend_from_slice(&1i32.to_le_bytes());
    let task_name = "MainTask";
    payload.push(task_name.len() as u8);
    payload.extend_from_slice(task_name.as_bytes());
    payload.extend_from_slice(&100u32.to_le_bytes());
    let app_name = "TestApp";
    payload.push(app_name.len() as u8);
    payload.extend_from_slice(app_name.as_bytes());
    let project_name = "TestProject";
    payload.push(project_name.len() as u8);
    payload.extend_from_slice(project_name.as_bytes());
    payload.extend_from_slice(&0u32.to_le_bytes());
    payload.push(0);
    payload
}

/// Same layout with fixed timestamps.
fn payload_at(message: &str, logger: &str, level: u16, filetime: u64) -> Vec<u8> {
    let mut payload = vec![1];
    payload.push(message.len() as u8);
    payload.extend_from_slice(message.as_bytes());
    payload.push(logger.len() as u8);
    payload.extend_from_slice(logger.as_bytes());
    payload.extend_from_slice(&level.to_le_bytes());
    payload.extend_from_slice(&filetime.to_le_bytes());
    payload.extend_from_slice(&filetime.to_le_bytes());
    payload.extend_from_slice(&7i32.to_le_bytes());
    payload.push(4);
    payload.extend_from_slice(b"Main");
    payload.extend_from_slice(&9u32.to_le_bytes());
    payload.push(3);
    payload.extend_from_slice(b"App");
    payload.push(4);
    payload.extend_from_slice(b"Proj");
    payload.extend_from_slice(&2u32.to_le_bytes());
    payload.push(0);
    payload
}

#[test]
fn test_bytes_reader() {
    let data = vec![1, 2, 3, 4, 5];
    let mut reader = BytesReader::new(&data);
    assert_eq!(reader.read_u8().unwrap(), 1);
    assert_eq!(reader.remaining(), 4);
}

#[test]
fn test_parse_minimal_log_entry() {
    let payload = build_test_payload("Test message", "test.logger", 2);
    let result = AdsParser::parse(&payload);
    assert!(result.is_ok());
    let entry = result.unwrap();
    assert_eq!(entry.message, "Test message");
    assert_eq!(entry.logger, "test.logger");
    assert_eq!(entry.level, LogLevel::Info);
    assert_eq!(entry.version, AdsProtocolVersion::V1);
}

#[test]
fn test_parse_with_all_log_levels() {
    let levels = vec![
        (0, LogLevel::Trace),
        (1, LogLevel::Debug),
        (2, LogLevel::Info),
        (3, LogLevel::Warn),
        (4, LogLevel::Error),
        (5, LogLevel::Fatal),
    ];
    for (level_byte, expected_level) in levels {
        let payload = build_test_payload("Test", "logger", level_byte);
        let entry = AdsParser::parse(&payload).unwrap();
        assert_eq!(entry.level, expected_level, "Level mismatch for byte {}", level_byte);
    }
}

#[test]
fn test_parse_empty_strings() {
    let payload = build_test_payload("", "", 2);
    let result = AdsParser::parse(&payload);
    assert!(result.is_ok());
    let entry = result.unwrap();
    assert_eq!(entry.message, "");
    assert_eq!(entry.logger, "");
}

#[test]
fn test_parse_string_encoding_utf8() {
    let payload = build_test_payload("Hello 世界 🌍", "logger.café", 2);
    let result = AdsParser::parse(&payload);
    assert!(result.is_ok());
    let entry = result.unwrap();
    assert_eq!(entry.message, "Hello 世界 🌍");
    assert_eq!(entry.logger, "logger.café");
}

#[test]
fn test_parse_invalid_version() {
    let mut payload = vec![255];
    payload.push(1);
    payload.push(b'A');
    let result = AdsParser::parse(&payload);
    assert!(result.is_err());
    match result {
        Err(AdsError::InvalidVersion(v)) => assert_eq!(v, 255),
        _ => panic!("Expected InvalidVersion error"),
    }
}

#[test]
fn test_parse_invalid_log_level() {
    let mut payload = vec![1];
    payload.push(4);
    payload.extend_from_slice(b"test");
    payload.push(6);
    payload.extend_from_slice(b"logger");
    payload.extend_from_slice(&99u16.to_le_bytes());
    let result = AdsParser::parse(&payload);
    assert!(result.is_err());
}

#[test]
fn test_parse_incomplete_message() {
    let payload = vec![1, 0, 5];
    let result = AdsParser::parse(&payload);
    assert!(result.is_err());
    match result {
        Err(AdsError::IncompleteMessage { .. }) => (),
        _ => panic!("Expected IncompleteMessage error"),
    }
}

#[test]
fn test_parse_buffer_overflow_detection() {
    let mut payload = vec![1];
    payload.push(255);
    payload.extend_from_slice(b"short");
    let result = AdsParser::parse(&payload);
    assert!(result.is_err());
}

#[test]
fn test_filetime_conversion() {
    let payload = build_test_payload("Test", "logger", 2);
    let result = AdsParser::parse(&payload);
    assert!(result.is_ok());
    let entry = result.unwrap();
    let now = Utc::now().timestamp();
    let diff = (now - entry.plc_timestamp.secs()).abs();
    assert!(diff < 10, "Parsed timestamp should be close to now, diff: {} seconds", diff);
}

#[test]
fn test_parse_large_message() {
    let large_message = "x".repeat(255);
    let payload = build_test_payload(&large_message, "logger", 2);
    let result = AdsParser::parse(&payload);
    assert!(result.is_ok());
    let entry = result.unwrap();
    assert_eq!(entry.message.len(), 255);
}

#[test]
fn test_bytes_reader_remaining() {
    let data = vec![1, 2, 3, 4, 5];
    let mut reader = BytesReader::new(&data);
    assert_eq!(reader.remaining(), 5);
    let _ = reader.read_u8();
    assert_eq!(reader.remaining(), 4);
    let _ = reader.read_bytes(2);
    assert_eq!(reader.remaining(), 2);
}

#[test]
fn test_bytes_reader_read_i32() {
    let data: Vec<u8> = 42i32.to_le_bytes().to_vec();
    let mut reader = BytesReader::new(&data);
    assert_eq!(reader.read_i32().unwrap(), 42);
}

#[test]
fn test_bytes_reader_read_u32() {
    let data: Vec<u8> = 1000u32.to_le_bytes().to_vec();
    let mut reader = BytesReader::new(&data);
    assert_eq!(reader.read_u32().unwrap(), 1000);
}

#[test]
fn test_bytes_reader_read_string() {
    let text = "Hello";
    let mut data = vec![text.len() as u8];
    data.extend_from_slice(text.as_bytes());
    let mut reader = BytesReader::new(&data);
    assert_eq!(reader.read_string().unwrap(), "Hello");
}

#[test]
fn test_bytes_reader_invalid_utf8() {
    let mut data = vec![2u8];
    data.push(0xFF);
    data.push(0xFF);
    let mut reader = BytesReader::new(&data);
    let result = reader.read_string();
    assert!(result.is_err());
}

#[test]
fn read_string_consumes_bytes_that_are_not_utf8() {
    let data = vec![2u8, 0xFF, 0xFF];
    let mut reader = BytesReader::new(&data);
    match reader.read_string() {
        Err(AdsError::InvalidStringEncoding(_)) => (),
        other => panic!("Expected InvalidStringEncoding, got {:?}", other),
    }
    assert_eq!(reader.remaining(), 0);
    let short = vec![5u8, b'a'];
    let mut reader = BytesReader::new(&short);
    assert!(reader.read_string().is_err());
    assert_eq!(reader.remaining(), 1);
}

#[test]
fn test_parse_with_positional_arguments() {
    let mut payload = build_test_payload("User {0} logged in", "auth.logger", 2);
    payload.pop();
    payload.push(1);
    payload.push(0);
    payload.extend_from_slice(&8i16.to_le_bytes());
    payload.extend_from_slice(&123i32.to_le_bytes());
    payload.push(0);
    let entry = AdsParser::parse(&payload).unwrap();
    assert_eq!(entry.arguments.len(), 1);
    assert_eq!(entry.arguments.get(0), Some(&AdsValue::UInt(123)));
}

#[test]
fn test_parse_with_context_variables() {
    let mut payload = build_test_payload("Test", "logger", 2);
    payload.pop();
    payload.push(2);
    payload.push(1);
    let ctx_name = "request_id";
    payload.push(ctx_name.len() as u8);
    payload.extend_from_slice(ctx_name.as_bytes());
    payload.extend_from_slice(&12i16.to_le_bytes());
    let ctx_value = "req-12345";
    payload.push(ctx_value.len() as u8);
    payload.extend_from_slice(ctx_value.as_bytes());
    payload.push(0);
    let entry = AdsParser::parse(&payload).unwrap();
    assert_eq!(entry.context.len(), 1);
    assert_eq!(
        entry.context.get("scope_1_request_id"),
        Some(&AdsValue::Text("req-12345".to_string()))
    );
}

#[test]
fn test_parse_multiple_arguments() {
    let mut payload = build_test_payload("Test {0} {1} {2}", "logger", 2);
    payload.pop();
    payload.push(1);
    payload.push(0);
    payload.extend_from_slice(&8i16.to_le_bytes());
    payload.extend_from_slice(&42i32.to_le_bytes());
    payload.push(1);
    payload.push(1);
    payload.extend_from_slice(&12i16.to_le_bytes());
    payload.push(4);
    payload.extend_from_slice(b"test");
    payload.push(1);
    payload.push(2);
    payload.extend_from_slice(&13i16.to_le_bytes());
    payload.push(1);
    payload.push(0);
    let entry = AdsParser::parse(&payload).unwrap();
    assert_eq!(entry.arguments.len(), 3);
    assert_eq!(entry.arguments.get(0), Some(&AdsValue::UInt(42)));
    assert_eq!(entry.arguments.get(1), Some(&AdsValue::Text("test".to_string())));
    assert_eq!(entry.arguments.get(2), Some(&AdsValue::Bool(true)));
}

#[test]
fn test_parse_value_types() {
    let mut payload = build_test_payload("Test", "logger", 2);
    payload.pop();
    payload.push(1);
    payload.push(0);
    payload.extend_from_slice(&0i16.to_le_bytes());
    payload.push(0);
    let entry = AdsParser::parse(&payload).unwrap();
    assert_eq!(entry.arguments.get(0), Some(&AdsValue::Null));
}

#[test]
fn test_parse_float_argument() {
    let mut payload = build_test_payload("Test", "logger", 2);
    payload.pop();
    payload.push(1);
    payload.push(0);
    payload.extend_from_slice(&5i16.to_le_bytes());
    payload.extend_from_slice(&3.14f64.to_le_bytes());
    payload.push(0);
    let entry = AdsParser::parse(&payload).unwrap();
    let value = entry.arguments.get(0).unwrap();
    assert!(value.is_number());
    assert_eq!(value, &AdsValue::LReal(3.14f64.to_bits()));
}

#[test]
fn test_parse_max_u32_value() {
    let mut payload = build_test_payload("Test", "logger", 2);
    payload.pop();
    payload.push(1);
    payload.push(0);
    payload.extend_from_slice(&8i16.to_le_bytes());
    payload.extend_from_slice(&(u32::MAX as i32).to_le_bytes());
    payload.push(0);
    let entry = AdsParser::parse(&payload).unwrap();
    assert!(entry.arguments.contains_key(0));
    assert_eq!(entry.arguments.get(0), Some(&AdsValue::Int(-1)));
}

#[test]
fn test_parse_negative_numbers() {
    let mut payload = build_test_payload("Test", "logger", 2);
    payload.pop();
    payload.push(1);
    payload.push(0);
    payload.extend_from_slice(&8i16.to_le_bytes());
    payload.extend_from_slice(&(-42i32).to_le_bytes());
    payload.push(0);
    let entry = AdsParser::parse(&payload).unwrap();
    assert_eq!(entry.arguments.get(0), Some(&AdsValue::Int(-42)));
}

#[test]
fn test_parse_long_context_name() {
    let mut payload = build_test_payload("Test", "logger", 2);
    payload.pop();
    payload.push(2);
    payload.push(1);
    let long_name = "x".repeat(1000);
    payload.push(long_name.len() as u8);
    payload.extend_from_slice(long_name.as_bytes());
    payload.extend_from_slice(&12i16.to_le_bytes());
    let value = "test";
    payload.push(value.len() as u8);
    payload.extend_from_slice(value.as_bytes());
    payload.push(0);
    let entry = AdsParser::parse(&payload).unwrap();
    assert_eq!(entry.context.len(), 1);
}

#[test]
fn test_parse_many_arguments() {
    let mut payload = build_test_payload("Test", "logger", 2);
    payload.pop();
    for i in 0..32 {
        payload.push(1);
        payload.push(i as u8);
        payload.extend_from_slice(&8i16.to_le_bytes());
        payload.extend_from_slice(&(i as i32).to_le_bytes());
    }
    payload.push(0);
    let entry = AdsParser::parse(&payload).unwrap();
    assert_eq!(entry.arguments.len(), 32);
}

#[test]
fn test_parse_roundtrip_utf8_emoji() {
    let emoji_message = "System event 🎉 alert ⚠️ error ❌";
    let payload = build_test_payload(emoji_message, "logger", 2);
    let entry = AdsParser::parse(&payload).unwrap();
    assert_eq!(entry.message, emoji_message);
}

#[test]
fn test_parse_cjk_characters() {
    let cjk_message = "日本語メッセージ 中文信息 한국어 메시지";
    let payload = build_test_payload(cjk_message, "logger", 2);
    let entry = AdsParser::parse(&payload).unwrap();
    assert_eq!(entry.message, cjk_message);
}

#[test]
fn test_parse_control_characters() {
    let msg = "Message\twith\ttabs\nand\nnewlines";
    let payload = build_test_payload(msg, "logger", 2);
    let entry = AdsParser::parse(&payload).unwrap();
    assert_eq!(entry.message, msg);
}

#[test]
fn test_filetime_boundary_unix_epoch() {
    let payload = build_test_payload("Test", "logger", 2);
    let entry = AdsParser::parse(&payload).unwrap();
    assert!(entry.plc_timestamp.secs() > 0);
    assert!(entry.clock_timestamp.secs() > 0);
}

#[test]
fn test_parse_mixed_argument_types() {
    let mut payload = build_test_payload("Test {0} {1} {2} {3} {4}", "logger", 2);
    payload.pop();
    payload.push(1);
    payload.push(0);
    payload.extend_from_slice(&8i16.to_le_bytes());
    payload.extend_from_slice(&100i32.to_le_bytes());
    payload.push(1);
    payload.push(1);
    payload.extend_from_slice(&5i16.to_le_bytes());
    payload.extend_from_slice(&2.71828f64.to_le_bytes());
    payload.push(1);
    payload.push(2);
    payload.extend_from_slice(&12i16.to_le_bytes());
    payload.push(5);
    payload.extend_from_slice(b"hello");
    payload.push(1);
    payload.push(3);
    payload.extend_from_slice(&13i16.to_le_bytes());
    payload.push(1);
    payload.push(1);
    payload.push(4);
    payload.extend_from_slice(&13i16.to_le_bytes());
    payload.push(0);
    payload.push(0);
    let entry = AdsParser::parse(&payload).unwrap();
    assert_eq!(entry.arguments.len(), 5);
    assert_eq!(entry.arguments.get(0), Some(&AdsValue::UInt(100)));
    assert!(entry.arguments.get(1).unwrap().is_number());
    assert_eq!(entry.arguments.get(2), Some(&AdsValue::Text("hello".to_string())));
    assert_eq!(entry.arguments.get(3), Some(&AdsValue::Bool(true)));
    assert_eq!(entry.arguments.get(4), Some(&AdsValue::Bool(false)));
}

// ---- further cases of the wire format ----

#[test]
fn parse_reads_every_header_field() {
    // FILETIME of 2021-01-01T00:00:00Z plus 1.5 s.
    let filetime: u64 = (1_609_459_200u64 * 10_000_000) + 116444736000000000 + 15_000_000;
    let payload = payload_at("m", "l", 4, filetime);
    let entry = AdsParser::parse(&payload).unwrap();
    assert_eq!(entry.level, LogLevel::Error);
    assert_eq!(entry.plc_timestamp.secs(), 1_609_459_201);
    assert_eq!(entry.plc_timestamp.nanos(), 500_000_000);
    assert_eq!(entry.clock_timestamp.secs(), 1_609_459_201);
    assert_eq!(entry.task_index, 7);
    assert_eq!(entry.task_name, "Main");
    assert_eq!(entry.task_cycle_counter, 9);
    assert_eq!(entry.app_name, "App");
    assert_eq!(entry.project_name, "Proj");
    assert_eq!(entry.online_change_count, 2);
    assert!(entry.arguments.is_empty());
    assert!(entry.context.is_empty());
}

#[test]
fn parse_rejects_timestamp_before_unix_epoch() {
    let payload = payload_at("m", "l", 2, 116444736000000000 - 1);
    match AdsParser::parse(&payload) {
        Err(AdsError::InvalidTimestamp(_)) => (),
        other => panic!("Expected InvalidTimestamp, got {:?}", other.map(|e| e.message)),
    }
}

#[test]
fn parse_accepts_the_unix_epoch_itself() {
    let payload = payload_at("m", "l", 2, 116444736000000000);
    let entry = AdsParser::parse(&payload).unwrap();
    assert_eq!(entry.plc_timestamp.secs(), 0);
    assert_eq!(entry.plc_timestamp.nanos(), 0);
}

#[test]
fn parse_rejects_level_six() {
    let payload = payload_at("m", "l", 6, 116444736000000000);
    match AdsParser::parse(&payload) {
        Err(AdsError::ParseError(_)) => (),
        other => panic!("Expected ParseError, got {:?}", other.map(|e| e.message)),
    }
}

#[test]
fn parse_rejects_invalid_utf8_message() {
    let payload = vec![1, 2, 0xC3, 0x28];
    match AdsParser::parse(&payload) {
        Err(AdsError::InvalidStringEncoding(_)) => (),
        other => panic!("Expected InvalidStringEncoding, got {:?}", other.map(|e| e.message)),
    }
}

#[test]
fn parse_rejects_too_many_arguments() {
    let mut payload = payload_at("m", "l", 2, 116444736000000000);
    payload.pop();
    for i in 0..(MAX_ARGUMENTS + 1) {
        payload.push(1);
        payload.push(i as u8);
        payload.extend_from_slice(&1i16.to_le_bytes());
        payload.push(7);
    }
    payload.push(0);
    match AdsParser::parse(&payload) {
        Err(AdsError::ParseError(m)) => assert!(m.contains("Too many arguments")),
        other => panic!("Expected ParseError, got {:?}", other.map(|e| e.message)),
    }
}

#[test]
fn parse_rejects_too_many_context_variables() {
    let mut payload = payload_at("m", "l", 2, 116444736000000000);
    payload.pop();
    for i in 0..(MAX_CONTEXT_VARS + 1) {
        payload.push(2);
        payload.push(0);
        let name = format!("k{}", i);
        payload.push(name.len() as u8);
        payload.extend_from_slice(name.as_bytes());
        payload.extend_from_slice(&0i16.to_le_bytes());
    }
    payload.push(0);
    match AdsParser::parse(&payload) {
        Err(AdsError::ParseError(m)) => assert!(m.contains("Too many context variables")),
        other => panic!("Expected ParseError, got {:?}", other.map(|e| e.message)),
    }
}

#[test]
fn parse_argument_of_same_index_replaces_earlier() {
    let mut payload = payload_at("m", "l", 2, 116444736000000000);
    payload.pop();
    payload.push(1);
    payload.push(3);
    payload.extend_from_slice(&1i16.to_le_bytes());
    payload.push(10);
    payload.push(1);
    payload.push(3);
    payload.extend_from_slice(&1i16.to_le_bytes());
    payload.push(20);
    payload.push(0);
    let entry = AdsParser::parse(&payload).unwrap();
    assert_eq!(entry.arguments.len(), 1);
    assert_eq!(entry.arguments.get(3), Some(&AdsValue::UInt(20)));
}

#[test]
fn parse_value_kinds_of_the_wire_format() {
    let mut payload = payload_at("m", "l", 2, 116444736000000000);
    payload.pop();
    let mut add = |idx: u8, ty: i16, bytes: &[u8]| {
        payload.push(1);
        payload.push(idx);
        payload.extend_from_slice(&ty.to_le_bytes());
        payload.extend_from_slice(bytes);
    };
    add(0, 6, &[0xFE]);
    add(1, 7, &(-300i16).to_le_bytes());
    add(2, 2, &60000u16.to_le_bytes());
    add(3, 15, &u64::MAX.to_le_bytes());
    add(4, 17, &i64::MIN.to_le_bytes());
    add(5, 20000, &61_500u32.to_le_bytes());
    add(6, 20001, &12_345u64.to_le_bytes());
    add(7, 20004, &((13 * 3600 + 5 * 60 + 9) * 1000u32).to_le_bytes());
    add(8, 20002, &86_400u32.to_le_bytes());
    add(9, 99, &[]);
    let mut enum_bytes = 2i16.to_le_bytes().to_vec();
    enum_bytes.extend_from_slice(&513u16.to_le_bytes());
    add(10, 20005, &enum_bytes);
    let mut wide = vec![2u8];
    wide.extend_from_slice(&0x48u16.to_le_bytes());
    wide.extend_from_slice(&0xD800u16.to_le_bytes());
    add(11, 20006, &wide);
    add(12, 4, &f32::NAN.to_bits().to_le_bytes());
    add(13, 4, &1.5f32.to_bits().to_le_bytes());
    payload.push(0);
    let entry = AdsParser::parse(&payload).unwrap();
    let a = &entry.arguments;
    assert_eq!(a.get(0), Some(&AdsValue::Int(-2)));
    assert_eq!(a.get(1), Some(&AdsValue::Int(-300)));
    assert_eq!(a.get(2), Some(&AdsValue::UInt(60000)));
    assert_eq!(a.get(3), Some(&AdsValue::UInt(u64::MAX)));
    assert_eq!(a.get(4), Some(&AdsValue::Int(i64::MIN)));
    assert_eq!(a.get(5), Some(&AdsValue::Text("T#61s500ms".to_string())));
    assert_eq!(a.get(6), Some(&AdsValue::Text("LTIME#1234us".to_string())));
    assert_eq!(a.get(7), Some(&AdsValue::Text("TOD#13:05:09".to_string())));
    assert_eq!(a.get(8), Some(&AdsValue::Text("1970-01-02T00:00:00Z".to_string())));
    assert_eq!(a.get(9), Some(&AdsValue::Null));
    assert_eq!(a.get(10), Some(&AdsValue::UInt(513)));
    assert_eq!(a.get(11), Some(&AdsValue::Text("H\u{FFFD}".to_string())));
    assert_eq!(a.get(12), Some(&AdsValue::Null));
    assert_eq!(a.get(13), Some(&AdsValue::Real(1.5f32.to_bits())));
}

#[test]
fn parse_all_reads_consecutive_entries() {
    let mut data = payload_at("first", "a", 1, 116444736000000000);
    data.extend(payload_at("second", "b", 3, 116444736000000000));
    let entries = AdsParser::parse_all(&data).unwrap();
    assert_eq!(entries.len(), 2);
    assert_eq!(entries[0].message, "first");
    assert_eq!(entries[1].message, "second");
    assert_eq!(entries[1].level, LogLevel::Warn);
}

#[test]
fn parse_all_skips_zero_padding() {
    let mut data = payload_at("only", "a", 1, 116444736000000000);
    data.extend_from_slice(&[0, 0, 0, 0]);
    let entries = AdsParser::parse_all(&data).unwrap();
    assert_eq!(entries.len(), 1);
    assert!(AdsParser::parse_all(&[0, 0, 0]).unwrap().is_empty());
    assert!(AdsParser::parse_all(&[]).unwrap().is_empty());
}

#[test]
fn parse_all_keeps_entries_read_before_a_bad_one() {
    let mut data = payload_at("ok", "a", 1, 116444736000000000);
    data.push(7);
    let entries = AdsParser::parse_all(&data).unwrap();
    assert_eq!(entries.len(), 1);
    assert_eq!(entries[0].message, "ok");
}

#[test]
fn parse_all_fails_when_the_first_entry_is_bad() {
    let mut data = vec![7u8];
    data.extend(payload_at("ok", "a", 1, 116444736000000000));
    match AdsParser::parse_all(&data) {
        Err(AdsError::InvalidVersion(7)) => (),
        other => panic!("Expected InvalidVersion(7), got {:?}", other.map(|v| v.len())),
    }
}

#[test]
fn parse_all_rejects_oversized_data() {
    let data = vec![1u8; 1_048_577];
    match AdsParser::parse_all(&data) {
        Err(AdsError::ParseError(m)) => {
            assert_eq!(m, "Message size 1048577 exceeds maximum 1048576")
        }
        other => panic!("Expected ParseError, got {:?}", other.map(|v| v.len())),
    }
}

#[test]
fn parse_is_the_first_entry_of_parse_all() {
    let mut data = payload_at("one", "a", 0, 116444736000000000);
    data.extend(payload_at("two", "b", 5, 116444736000000000));
    let first = AdsParser::parse(&data).unwrap();
    let all = AdsParser::parse_all(&data).unwrap();
    assert_eq!(first.message, all[0].message);
    assert_eq!(first.level, all[0].level);
}

#[test]
fn reader_reads_little_endian_fields() {
    let data = vec![0x34, 0x12, 0xFF, 0xFF, 0x01, 0x00, 0x00, 0x80];
    let mut reader = BytesReader::new(&data);
    assert_eq!(reader.peek(), Some(0x34));
    assert_eq!(reader.read_u16().unwrap(), 0x1234);
    assert_eq!(reader.read_i16().unwrap(), -1);
    assert_eq!(reader.read_i32().unwrap(), i32::MIN + 1);
    assert_eq!(reader.peek(), None);
    match reader.read_u8() {
        Err(AdsError::IncompleteMessage { expected, got }) => {
            assert_eq!(expected, 1);
            assert_eq!(got, 0);
        }
        other => panic!("Expected IncompleteMessage, got {:?}", other),
    }
}

#[test]
fn reader_read_bytes_keeps_position_on_failure() {
    let data = vec![1, 2, 3];
    let mut reader = BytesReader::new(&data);
    assert!(reader.read_bytes(4).is_err());
    assert_eq!(reader.remaining(), 3);
    assert_eq!(reader.read_bytes(3).unwrap(), &[1, 2, 3]);
}

#[test]
fn reader_read_filetime_converts_to_unix_time() {
    let ft: u64 = 116444736000000000 + 10_000_000 * 42 + 7;
    let data = ft.to_le_bytes().to_vec();
    let mut reader = BytesReader::new(&data);
    let t = reader.read_filetime().unwrap();
    assert_eq!(t.secs(), 42);
    assert_eq!(t.nanos(), 700);
}

#[test]
fn reader_read_u64_and_i64() {
    let mut data = 0x0102030405060708u64.to_le_bytes().to_vec();
    data.extend_from_slice(&(-5i64).to_le_bytes());
    let mut reader = BytesReader::new(&data);
    assert_eq!(reader.read_u64().unwrap(), 0x0102030405060708);
    assert_eq!(reader.read_i64().unwrap(), -5);
}

#[test]
fn protocol_version_from_byte() {
    assert_eq!(AdsProtocolVersion::from_u8(1), Some(AdsProtocolVersion::V1));
    assert_eq!(AdsProtocolVersion::from_u8(0), None);
    assert_eq!(AdsProtocolVersion::from_u8(2), None);
}
