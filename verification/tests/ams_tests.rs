use log4tc::ams::{
    build_udp_discovery_response, handle_frame, tcp_frame, tcp_frame_length, AdsWriteRequest,
    AmsHeader, AmsNetId, ADS_CMD_READ, ADS_CMD_READ_DEVICE_INFO, ADS_CMD_READ_STATE, ADS_CMD_WRITE,
};
use log4tc::errors::AdsError;
use log4tc::level::LogLevel;

const PLC: [u8; 6] = [192, 168, 1, 10, 1, 1];
const US: [u8; 6] = [10, 0, 0, 2, 1, 1];

fn header(command_id: u16, target_port: u16, data_length: u32) -> AmsHeader {
    AmsHeader {
        target_net_id: AmsNetId { octets: US },
        target_port,
        source_net_id: AmsNetId { octets: PLC },
        source_port: 350,
        command_id,
        state_flags: 0x0004,
        data_length,
        error_code: 0,
        invoke_id: 0xDEADBEEF,
    }
}

fn packet(command_id: u16, target_port: u16, body: &[u8]) -> Vec<u8> {
    let mut p = header(command_id, target_port, body.len() as u32).serialize();
    p.extend_from_slice(body);
    p
}

fn log_payload(message: &str, level: u16) -> Vec<u8> {
    let mut p = vec![1u8, message.len() as u8];
    p.extend_from_slice(message.as_bytes());
    p.push(1);
    p.extend_from_slice(b"L");
    p.extend_from_slice(&level.to_le_bytes());
    let ft: u64 = 116444736000000000;
    p.extend_from_slice(&ft.to_le_bytes());
    p.extend_from_slice(&ft.to_le_bytes());
    p.extend_from_slice(&0i32.to_le_bytes());
    p.push(0);
    p.extend_from_slice(&0u32.to_le_bytes());
    p.push(0);
    p.push(0);
    p.extend_from_slice(&0u32.to_le_bytes());
    p.push(0);
    p
}

fn write_body(data: &[u8]) -> Vec<u8> {
    let mut b = 0x1000u32.to_le_bytes().to_vec();
    b.extend_from_slice(&7u32.to_le_bytes());
    b.extend_from_slice(&(data.len() as u32).to_le_bytes());
    b.extend_from_slice(data);
    b
}

/// Checks the response header: addresses swapped, response flag set, same
/// command and invoke id, no error, the given data length.
fn check_response(resp: &[u8], command_id: u16, data_len: u32) {
    let h = AmsHeader::parse(resp).unwrap();
    assert_eq!(h.target_net_id.octets, PLC);
    assert_eq!(h.target_port, 350);
    assert_eq!(h.source_net_id.octets, US);
    assert_eq!(h.command_id, command_id);
    assert_eq!(h.state_flags, 0x0005);
    assert_eq!(h.error_code, 0);
    assert_eq!(h.invoke_id, 0xDEADBEEF);
    assert_eq!(h.data_length, data_len);
    assert_eq!(resp.len(), 32 + data_len as usize);
}

#[test]
fn header_serialize_and_parse_round_trip() {
    let h = header(ADS_CMD_WRITE, 16150, 99);
    let bytes = h.serialize();
    assert_eq!(bytes.len(), 32);
    assert_eq!(&bytes[0..6], &US);
    assert_eq!(&bytes[6..8], &16150u16.to_le_bytes());
    assert_eq!(&bytes[28..32], &0xDEADBEEFu32.to_le_bytes());
    assert_eq!(AmsHeader::parse(&bytes).unwrap(), h);
}

#[test]
fn header_parse_rejects_short_data() {
    match AmsHeader::parse(&[0u8; 31]) {
        Err(AdsError::ParseError(m)) => assert_eq!(m, "AMS header too short"),
        other => panic!("unexpected {:?}", other),
    }
}

#[test]
fn make_response_swaps_addresses() {
    let h = header(ADS_CMD_READ_STATE, 851, 12);
    let r = h.make_response(0x700);
    assert_eq!(r.target_net_id, h.source_net_id);
    assert_eq!(r.target_port, h.source_port);
    assert_eq!(r.source_net_id, h.target_net_id);
    assert_eq!(r.source_port, h.target_port);
    assert_eq!(r.state_flags, 0x0005);
    assert_eq!(r.error_code, 0x700);
    assert_eq!(r.data_length, 0);
    let back = r.make_response(0);
    assert_eq!(back.target_net_id, h.target_net_id);
    assert_eq!(back.target_port, h.target_port);
}

#[test]
fn device_info_answer() {
    let reply = handle_frame(&packet(ADS_CMD_READ_DEVICE_INFO, 10000, &[]), 16150).unwrap();
    assert!(reply.entries.is_none());
    check_response(&reply.response, ADS_CMD_READ_DEVICE_INFO, 24);
    let payload = &reply.response[32..];
    assert_eq!(&payload[0..4], &[0, 0, 0, 0]);
    assert_eq!(&payload[4..6], &[0, 1]);
    assert_eq!(&payload[6..8], &1u16.to_le_bytes());
    assert_eq!(&payload[8..19], b"log4tc-rust");
    assert_eq!(&payload[19..24], &[0, 0, 0, 0, 0]);
}

#[test]
fn read_answer_is_zero_filled() {
    let mut body = 0x4020u32.to_le_bytes().to_vec();
    body.extend_from_slice(&0u32.to_le_bytes());
    body.extend_from_slice(&5u32.to_le_bytes());
    let reply = handle_frame(&packet(ADS_CMD_READ, 851, &body), 16150).unwrap();
    check_response(&reply.response, ADS_CMD_READ, 13);
    assert_eq!(&reply.response[32..], &[0, 0, 0, 0, 5, 0, 0, 0, 0, 0, 0, 0, 0]);
}

#[test]
fn read_request_too_short() {
    match handle_frame(&packet(ADS_CMD_READ, 851, &[0u8; 11]), 16150) {
        Err(AdsError::ParseError(m)) => assert_eq!(m, "Read request too short"),
        other => panic!("unexpected {:?}", other.map(|r| r.response)),
    }
}

#[test]
fn read_state_answer() {
    let reply = handle_frame(&packet(ADS_CMD_READ_STATE, 851, &[]), 16150).unwrap();
    check_response(&reply.response, ADS_CMD_READ_STATE, 8);
    assert_eq!(&reply.response[32..], &[0, 0, 0, 0, 5, 0, 0, 0]);
}

#[test]
fn unknown_command_answers_success() {
    let reply = handle_frame(&packet(9, 851, &[1, 2, 3]), 16150).unwrap();
    check_response(&reply.response, 9, 4);
    assert_eq!(&reply.response[32..], &[0, 0, 0, 0]);
    assert!(reply.entries.is_none());
}

#[test]
fn write_to_log_port_parses_entries() {
    let mut data = log_payload("first", 1);
    data.extend(log_payload("second", 4));
    let reply = handle_frame(&packet(ADS_CMD_WRITE, 16150, &write_body(&data)), 16150).unwrap();
    check_response(&reply.response, ADS_CMD_WRITE, 4);
    let entries = reply.entries.unwrap().unwrap();
    assert_eq!(entries.len(), 2);
    assert_eq!(entries[0].message, "first");
    assert_eq!(entries[1].message, "second");
    assert_eq!(entries[1].level, LogLevel::Error);
}

#[test]
fn write_to_other_port_is_answered_but_not_parsed() {
    let data = log_payload("ignored", 1);
    let reply = handle_frame(&packet(ADS_CMD_WRITE, 851, &write_body(&data)), 16150).unwrap();
    check_response(&reply.response, ADS_CMD_WRITE, 4);
    assert!(reply.entries.is_none());
}

#[test]
fn write_with_bad_log_data_still_answers() {
    let reply = handle_frame(&packet(ADS_CMD_WRITE, 16150, &write_body(&[9, 9, 9])), 16150).unwrap();
    check_response(&reply.response, ADS_CMD_WRITE, 4);
    match reply.entries {
        Some(Err(AdsError::InvalidVersion(9))) => (),
        other => panic!("unexpected {:?}", other.map(|r| r.map(|v| v.len()))),
    }
}

#[test]
fn write_request_errors() {
    match handle_frame(&packet(ADS_CMD_WRITE, 16150, &[0u8; 11]), 16150) {
        Err(AdsError::ParseError(m)) => assert_eq!(m, "Write request too short"),
        other => panic!("unexpected {:?}", other.map(|r| r.response)),
    }
    let mut body = write_body(&[1, 2, 3, 4]);
    body.truncate(14);
    match handle_frame(&packet(ADS_CMD_WRITE, 16150, &body), 16150) {
        Err(AdsError::IncompleteMessage { expected, got }) => {
            assert_eq!(expected, 4);
            assert_eq!(got, 2);
        }
        other => panic!("unexpected {:?}", other.map(|r| r.response)),
    }
}

#[test]
fn frame_shorter_than_a_header_is_refused() {
    match handle_frame(&[0u8; 10], 16150) {
        Err(AdsError::ParseError(m)) => assert_eq!(m, "AMS header too short"),
        other => panic!("unexpected {:?}", other.map(|r| r.response)),
    }
}

#[test]
fn write_request_parse_reads_fields() {
    let w = AdsWriteRequest::parse(&write_body(&[5, 6])).unwrap();
    assert_eq!(w.index_group, 0x1000);
    assert_eq!(w.index_offset, 7);
    assert_eq!(w.data, vec![5, 6]);
    let mut longer = write_body(&[5, 6]);
    longer.push(99);
    assert_eq!(AdsWriteRequest::parse(&longer).unwrap().data, vec![5, 6]);
}

#[test]
fn tcp_prefix_length_rules() {
    assert_eq!(tcp_frame_length(&[0, 0, 32, 0, 0, 0]), Some(32));
    assert_eq!(tcp_frame_length(&[0, 0, 0, 0, 16, 0]), Some(1_048_576));
    assert_eq!(tcp_frame_length(&[0, 0, 1, 0, 16, 0]), None);
    assert_eq!(tcp_frame_length(&[0, 0, 0, 0, 0, 0]), None);
    assert_eq!(tcp_frame_length(&[1, 0, 32, 0, 0, 0]), None);
}

#[test]
fn tcp_frame_round_trips_through_the_prefix() {
    let packet = vec![7u8; 40];
    let frame = tcp_frame(&packet);
    assert_eq!(frame.len(), 46);
    assert_eq!(&frame[0..6], &[0, 0, 40, 0, 0, 0]);
    let prefix: [u8; 6] = frame[0..6].try_into().unwrap();
    assert_eq!(tcp_frame_length(&prefix), Some(40));
    assert_eq!(&frame[6..], &packet[..]);
}

#[test]
fn udp_discovery_response_layout() {
    let id = AmsNetId { octets: [5, 6, 7, 8, 1, 1] };
    let r = build_udp_discovery_response(&id);
    assert_eq!(r.len(), 4 + 4 + 6 + 2 + 16);
    assert_eq!(&r[0..4], &[0x03, 0x66, 0x14, 0x71]);
    assert_eq!(&r[4..8], &24u32.to_le_bytes());
    assert_eq!(&r[8..14], &[5, 6, 7, 8, 1, 1]);
    assert_eq!(&r[14..16], &48898u16.to_le_bytes());
    assert_eq!(&r[16..27], b"log4tc-rust");
    assert_eq!(&r[27..32], &[0, 0, 0, 0, 0]);
}

#[test]
fn net_id_text() {
    let id = AmsNetId { octets: [192, 168, 0, 1, 1, 255] };
    assert_eq!(id.to_string(), "192.168.0.1.1.255");
    assert_eq!(id.bytes(), &[192, 168, 0, 1, 1, 255]);
    assert_eq!(AmsNetId { octets: [0; 6] }.to_string(), "0.0.0.0.0.0");
}

#[test]
fn net_id_parse_accepts_six_octets() {
    assert_eq!(AmsNetId::parse("192.168.0.1.1.1"), Some(AmsNetId { octets: [192, 168, 0, 1, 1, 1] }));
    assert_eq!(AmsNetId::parse("0.0.0.0.0.255"), Some(AmsNetId { octets: [0, 0, 0, 0, 0, 255] }));
    assert_eq!(AmsNetId::parse("+1.002.3.4.5.6"), Some(AmsNetId { octets: [1, 2, 3, 4, 5, 6] }));
    let id = AmsNetId { octets: [10, 20, 30, 40, 1, 1] };
    assert_eq!(AmsNetId::parse(&id.to_string()), Some(id));
}

#[test]
fn net_id_parse_rejects_other_text() {
    for bad in [
        "", "1.2.3.4.5", "1.2.3.4.5.6.7", "1.2.3.4.5.256", "1.2.3.4.5.", ".1.2.3.4.5",
        "1.2.3.4.5.x", "1..2.3.4.5", "1.2.3.4.5.-1", "1.2.3.4.5.+", " 1.2.3.4.5.6",
    ] {
        assert_eq!(AmsNetId::parse(bad), None, "{:?}", bad);
    }
}
