//! AMS/TCP framing and the answers the service gives to ADS commands.
//!
//! An AMS/TCP frame is a six-byte prefix (two reserved zero bytes and the
//! length of what follows, both little-endian) and an AMS packet: a 32-byte
//! header (target and source Net ID and port, command id, state flags, data
//! length, error code, invoke id) followed by the command's data.

use vstd::prelude::*;
use crate::errors::{AdsError, AdsErrorModel};
use crate::parser::{entries_view, spec_parse_all, AdsLogEntry, AdsParser};
use crate::formatter::{is_digit, lemma_decimal_reads_back, parse_index, parse_index_at};
use crate::reader::{le_bytes_u16, le_bytes_u32, le_u16, le_u32, lemma_le16_roundtrip, lemma_le32_roundtrip};
use crate::text::{append_chars, chars_to_string, decimal, str_to_chars, u64_to_decimal};

verus! {

/// ADS command: read device information.
pub const ADS_CMD_READ_DEVICE_INFO: u16 = 1;

/// ADS command: read.
pub const ADS_CMD_READ: u16 = 2;

/// ADS command: write.
pub const ADS_CMD_WRITE: u16 = 3;

/// ADS command: read state.
pub const ADS_CMD_READ_STATE: u16 = 4;

/// Length of the AMS header.
pub const AMS_HEADER_LEN: usize = 32;

/// Largest AMS packet accepted in one AMS/TCP frame.
pub const MAX_AMS_PACKET: usize = 1_048_576;

/// TCP port of AMS/TCP.
pub const AMS_TCP_PORT: u16 = 48898;

/// State flag bit that marks a response.
pub const STATE_FLAG_RESPONSE: u16 = 0x0001;

/// An AMS Net ID: six bytes, written a.b.c.d.e.f.
#[derive(Debug, Clone, Copy, PartialEq, Eq)]
pub struct AmsNetId {
    pub octets: [u8; 6],
}

/// The dotted text of the Net ID with octets `o`: `a.b.c.d.e.f`, each octet
/// in decimal.
pub open spec fn net_id_text(o: Seq<u8>) -> Seq<char> {
    decimal(o[0] as nat) + "."@ + decimal(o[1] as nat) + "."@ + decimal(o[2] as nat) + "."@
        + decimal(o[3] as nat) + "."@ + decimal(o[4] as nat) + "."@ + decimal(o[5] as nat)
}

impl AmsNetId {
    /// The six bytes of this Net ID.
    pub fn bytes(&self) -> (b: &[u8; 6])
        ensures
            b@ == self.octets@,
    {
        &self.octets
    }

    /// The dotted text of this Net ID.
    pub fn to_string(&self) -> (s: String)
        ensures
            s@ == net_id_text(self.octets@),
    {
        let mut out: Vec<char> = Vec::new();
        let dot = str_to_chars(".");
        let mut i: usize = 0;
        while i < 6
            invariant
                i <= 6,
                dot@ == "."@,
                i == 0 ==> out@ == Seq::<char>::empty(),
                i >= 1 ==> out@ == net_id_prefix(self.octets@, i as int),
            decreases 6 - i,
        {
            if i > 0 {
                append_chars(&mut out, &dot);
            }
            let digits = u64_to_decimal(self.octets[i] as u64);
            append_chars(&mut out, &digits);
            i = i + 1;
        }
        let s = chars_to_string(&out);
        assert(s@ =~= net_id_text(self.octets@)) by {
            reveal_with_fuel(net_id_prefix, 6);
        }
        s
    }
}

/// The pieces of `s` between dots, as `str::split('.')` gives them.
pub open spec fn dot_fields(s: Seq<char>) -> Seq<Seq<char>>
    decreases s.len(),
{
    if s.len() == 0 {
        seq![Seq::<char>::empty()]
    } else {
        let f = dot_fields(s.drop_last());
        if s.last() == '.' {
            f.push(Seq::<char>::empty())
        } else {
            f.update(f.len() - 1, f.last().push(s.last()))
        }
    }
}

/// The octet a field denotes, read as `str::parse::<u8>` reads it: an
/// optional `+`, then decimal digits with a value of at most 255.
pub open spec fn field_octet(f: Seq<char>) -> Option<u8> {
    match parse_index(f) {
        Some(n) => if n <= 255 {
            Some(n as u8)
        } else {
            None
        },
        None => None,
    }
}

/// The Net ID that `s` denotes: exactly six dot-separated octets.
pub open spec fn net_id_of_text(s: Seq<char>) -> Option<Seq<u8>> {
    let f = dot_fields(s);
    if f.len() == 6 && forall|i: int| 0 <= i < 6 ==> (#[trigger] field_octet(f[i])) is Some {
        Some(Seq::new(6, |i: int| field_octet(f[i])->0))
    } else {
        None
    }
}

fn field_value(field: &Vec<char>) -> (r: Option<u8>)
    ensures
        r == field_octet(field@),
{
    match parse_index_at(field, 0, field.len()) {
        Some(n) => {
            assert(field@.subrange(0, field@.len() as int) =~= field@);
            if n <= 255 {
                Some(n as u8)
            } else {
                None
            }
        },
        None => {
            assert(field@.subrange(0, field@.len() as int) =~= field@);
            None
        },
    }
}

impl AmsNetId {
    /// Reads a Net ID written `a.b.c.d.e.f`; `None` unless the text has
    /// exactly six dot-separated fields, each an octet.
    pub fn parse(text: &str) -> (r: Option<AmsNetId>)
        ensures
            match net_id_of_text(text@) {
                Some(o) => r matches Some(id) && id.octets@ == o,
                None => r is None,
            },
    {
        let t = str_to_chars(text);
        let mut done: Vec<Vec<char>> = Vec::new();
        let mut cur: Vec<char> = Vec::new();
        let mut i: usize = 0;
        assert(t@.take(0) =~= Seq::<char>::empty());
        while i < t.len()
            invariant
                i <= t@.len(),
                t@ == text@,
                done@.map_values(|f: Vec<char>| f@).push(cur@) == dot_fields(t@.take(i as int)),
            decreases t.len() - i,
        {
            let ghost before = done@.map_values(|f: Vec<char>| f@);
            let ghost s = t@.take(i + 1);
            assert(s.drop_last() =~= t@.take(i as int));
            if t[i] == '.' {
                let finished = cur;
                done.push(finished);
                cur = Vec::new();
                assert(done@.map_values(|f: Vec<char>| f@) =~= before.push(finished@));
            } else {
                cur.push(t[i]);
                assert(done@.map_values(|f: Vec<char>| f@) =~= before);
            }
            i = i + 1;
            assert(done@.map_values(|f: Vec<char>| f@).push(cur@) =~= dot_fields(t@.take(i as int)));
        }
        assert(t@.take(t@.len() as int) =~= t@);
        let ghost fields = dot_fields(text@);
        if done.len() != 5 {
            return None;
        }
        let mut octets: [u8; 6] = [0u8; 6];
        let mut k: usize = 0;
        while k < 6
            invariant
                k <= 6,
                done@.len() == 5,
                fields == dot_fields(text@),
                fields.len() == 6,
                fields == done@.map_values(|f: Vec<char>| f@).push(cur@),
                forall|j: int| 0 <= j < k ==> field_octet(#[trigger] fields[j]) == Some(octets@[j]),
            decreases 6 - k,
        {
            let field = if k < 5 {
                &done[k]
            } else {
                &cur
            };
            assert(field@ == fields[k as int]);
            match field_value(field) {
                Some(b) => {
                    octets[k] = b;
                },
                None => {
                    assert(!(forall|j: int| 0 <= j < 6 ==> (#[trigger] field_octet(fields[j])) is Some));
                    return None;
                },
            }
            k = k + 1;
        }
        let id = AmsNetId { octets };
        assert(id.octets@ =~= Seq::new(6, |j: int| field_octet(fields[j])->0));
        Some(id)
    }
}

/// The text of the first `n` octets of a Net ID, joined by dots.
pub open spec fn net_id_prefix(o: Seq<u8>, n: int) -> Seq<char>
    decreases n,
{
    if n <= 1 {
        decimal(o[0] as nat)
    } else {
        net_id_prefix(o, n - 1) + "."@ + decimal(o[n - 1] as nat)
    }
}

/// The header of an AMS packet.
#[derive(Debug, Clone, Copy, PartialEq, Eq)]
pub struct AmsHeader {
    pub target_net_id: AmsNetId,
    pub target_port: u16,
    pub source_net_id: AmsNetId,
    pub source_port: u16,
    pub command_id: u16,
    pub state_flags: u16,
    pub data_length: u32,
    pub error_code: u32,
    pub invoke_id: u32,
}

/// The 32 bytes of a header.
pub open spec fn header_bytes(h: AmsHeader) -> Seq<u8> {
    h.target_net_id.octets@ + le_bytes_u16(h.target_port) + h.source_net_id.octets@
        + le_bytes_u16(h.source_port) + le_bytes_u16(h.command_id) + le_bytes_u16(h.state_flags)
        + le_bytes_u32(h.data_length) + le_bytes_u32(h.error_code) + le_bytes_u32(h.invoke_id)
}

/// Whether `h` is the header that the first 32 bytes of `b` encode.
pub open spec fn header_read_from(h: AmsHeader, b: Seq<u8>) -> bool {
    &&& h.target_net_id.octets@ == b.subrange(0, 6)
    &&& h.target_port == le_u16(b.subrange(6, 8))
    &&& h.source_net_id.octets@ == b.subrange(8, 14)
    &&& h.source_port == le_u16(b.subrange(14, 16))
    &&& h.command_id == le_u16(b.subrange(16, 18))
    &&& h.state_flags == le_u16(b.subrange(18, 20))
    &&& h.data_length == le_u32(b.subrange(20, 24))
    &&& h.error_code == le_u32(b.subrange(24, 28))
    &&& h.invoke_id == le_u32(b.subrange(28, 32))
}

/// The response header to `h`: source and target swapped, the response flag
/// set, the given error code, data length zero; command and invoke id kept.
pub open spec fn response_header(h: AmsHeader, error_code: u32) -> AmsHeader {
    AmsHeader {
        target_net_id: h.source_net_id,
        target_port: h.source_port,
        source_net_id: h.target_net_id,
        source_port: h.target_port,
        command_id: h.command_id,
        state_flags: h.state_flags | STATE_FLAG_RESPONSE,
        data_length: 0,
        error_code,
        invoke_id: h.invoke_id,
    }
}

fn le16(b0: u8, b1: u8) -> (v: u16)
    ensures
        v == le_u16(seq![b0, b1]),
{
    b0 as u16 + (b1 as u16) * 256
}

fn le32(b0: u8, b1: u8, b2: u8, b3: u8) -> (v: u32)
    ensures
        v == le_u32(seq![b0, b1, b2, b3]),
{
    b0 as u32 + (b1 as u32) * 0x100 + (b2 as u32) * 0x1_0000 + (b3 as u32) * 0x100_0000
}

fn push_u16(out: &mut Vec<u8>, x: u16)
    ensures
        final(out)@ == old(out)@ + le_bytes_u16(x),
{
    out.push((x % 256) as u8);
    out.push((x / 256) as u8);
    assert(final(out)@ =~= old(out)@ + le_bytes_u16(x));
}

fn push_u32(out: &mut Vec<u8>, x: u32)
    ensures
        final(out)@ == old(out)@ + le_bytes_u32(x),
{
    out.push((x % 0x100) as u8);
    out.push(((x / 0x100) % 0x100) as u8);
    out.push(((x / 0x1_0000) % 0x100) as u8);
    out.push((x / 0x100_0000) as u8);
    assert(final(out)@ =~= old(out)@ + le_bytes_u32(x));
}

fn push_net_id(out: &mut Vec<u8>, id: &AmsNetId)
    ensures
        final(out)@ == old(out)@ + id.octets@,
{
    let mut i: usize = 0;
    while i < 6
        invariant
            i <= 6,
            out@ == old(out)@ + id.octets@.take(i as int),
        decreases 6 - i,
    {
        out.push(id.octets[i]);
        i = i + 1;
        assert(out@ =~= old(out)@ + id.octets@.take(i as int));
    }
    assert(id.octets@.take(6) =~= id.octets@);
}

impl AmsHeader {
    /// The header encoded in the first 32 bytes of `data`.
    pub fn parse(data: &[u8]) -> (r: Result<AmsHeader, AdsError>)
        ensures
            data@.len() < AMS_HEADER_LEN ==> (r matches Err(e) && e@ == AdsErrorModel::ParseError(
                "AMS header too short"@,
            )),
            data@.len() >= AMS_HEADER_LEN ==> (r matches Ok(h) && header_read_from(h, data@)),
    {
        if data.len() < AMS_HEADER_LEN {
            return Err(AdsError::ParseError(String::from_str("AMS header too short")));
        }
        let h = AmsHeader {
            target_net_id: AmsNetId { octets: [data[0], data[1], data[2], data[3], data[4], data[5]] },
            target_port: le16(data[6], data[7]),
            source_net_id: AmsNetId {
                octets: [data[8], data[9], data[10], data[11], data[12], data[13]],
            },
            source_port: le16(data[14], data[15]),
            command_id: le16(data[16], data[17]),
            state_flags: le16(data[18], data[19]),
            data_length: le32(data[20], data[21], data[22], data[23]),
            error_code: le32(data[24], data[25], data[26], data[27]),
            invoke_id: le32(data[28], data[29], data[30], data[31]),
        };
        assert(h.target_net_id.octets@ =~= data@.subrange(0, 6));
        assert(h.source_net_id.octets@ =~= data@.subrange(8, 14));
        assert(data@.subrange(6, 8) =~= seq![data@[6], data@[7]]);
        assert(data@.subrange(14, 16) =~= seq![data@[14], data@[15]]);
        assert(data@.subrange(16, 18) =~= seq![data@[16], data@[17]]);
        assert(data@.subrange(18, 20) =~= seq![data@[18], data@[19]]);
        assert(data@.subrange(20, 24) =~= seq![data@[20], data@[21], data@[22], data@[23]]);
        assert(data@.subrange(24, 28) =~= seq![data@[24], data@[25], data@[26], data@[27]]);
        assert(data@.subrange(28, 32) =~= seq![data@[28], data@[29], data@[30], data@[31]]);
        Ok(h)
    }

    /// The header of the response to this packet, with the given error code.
    pub fn make_response(&self, error_code: u32) -> (r: AmsHeader)
        ensures
            r == response_header(*self, error_code),
    {
        AmsHeader {
            target_net_id: self.source_net_id,
            target_port: self.source_port,
            source_net_id: self.target_net_id,
            source_port: self.target_port,
            command_id: self.command_id,
            state_flags: self.state_flags | STATE_FLAG_RESPONSE,
            data_length: 0,
            error_code,
            invoke_id: self.invoke_id,
        }
    }

    /// The 32 bytes of this header.
    pub fn serialize(&self) -> (v: Vec<u8>)
        ensures
            v@ == header_bytes(*self),
    {
        let mut v: Vec<u8> = Vec::new();
        push_net_id(&mut v, &self.target_net_id);
        push_u16(&mut v, self.target_port);
        push_net_id(&mut v, &self.source_net_id);
        push_u16(&mut v, self.source_port);
        push_u16(&mut v, self.command_id);
        push_u16(&mut v, self.state_flags);
        push_u32(&mut v, self.data_length);
        push_u32(&mut v, self.error_code);
        push_u32(&mut v, self.invoke_id);
        v
    }
}

/// An ADS write request: index group, index offset, then a length and that
/// many bytes of data.
pub struct AdsWriteRequest {
    pub index_group: u32,
    pub index_offset: u32,
    pub data: Vec<u8>,
}

/// The data length a write request announces.
pub open spec fn write_length(p: Seq<u8>) -> nat {
    le_u32(p.subrange(8, 12))
}

/// The outcome of reading a write request from `p`: its data, or the error.
pub open spec fn spec_write_data(p: Seq<u8>) -> Result<Seq<u8>, AdsErrorModel> {
    if p.len() < 12 {
        Err(AdsErrorModel::ParseError("Write request too short"@))
    } else if p.len() - 12 < write_length(p) {
        Err(
            AdsErrorModel::IncompleteMessage {
                expected: write_length(p) as usize,
                got: (p.len() - 12) as usize,
            },
        )
    } else {
        Ok(p.subrange(12, 12 + write_length(p) as int))
    }
}

impl AdsWriteRequest {
    /// Reads a write request from the data of an AMS packet.
    pub fn parse(payload: &[u8]) -> (r: Result<AdsWriteRequest, AdsError>)
        ensures
            match spec_write_data(payload@) {
                Ok(d) => r matches Ok(w) && w.data@ == d && w.index_group == le_u32(
                    payload@.subrange(0, 4),
                ) && w.index_offset == le_u32(payload@.subrange(4, 8)),
                Err(e) => r matches Err(x) && x@ == e,
            },
    {
        if payload.len() < 12 {
            return Err(AdsError::ParseError(String::from_str("Write request too short")));
        }
        let index_group = le32(payload[0], payload[1], payload[2], payload[3]);
        let index_offset = le32(payload[4], payload[5], payload[6], payload[7]);
        let length = le32(payload[8], payload[9], payload[10], payload[11]);
        assert(payload@.subrange(0, 4) =~= seq![payload@[0], payload@[1], payload@[2], payload@[3]]);
        assert(payload@.subrange(4, 8) =~= seq![payload@[4], payload@[5], payload@[6], payload@[7]]);
        assert(payload@.subrange(8, 12) =~= seq![payload@[8], payload@[9], payload@[10], payload@[11]]);
        let available = payload.len() - 12;
        if available < length as usize {
            return Err(AdsError::IncompleteMessage { expected: length as usize, got: available });
        }
        let mut data: Vec<u8> = Vec::new();
        let end = 12 + length as usize;
        let mut i: usize = 12;
        while i < end
            invariant
                12 <= i <= end,
                end <= payload@.len(),
                data@ == payload@.subrange(12, i as int),
            decreases end - i,
        {
            data.push(payload[i]);
            i = i + 1;
            assert(data@ =~= payload@.subrange(12, i as int));
        }
        Ok(AdsWriteRequest { index_group, index_offset, data })
    }
}

/// The device name the service reports: "log4tc-rust", zero-padded to 16
/// bytes.
pub open spec fn device_name_bytes() -> Seq<u8> {
    seq![
        0x6cu8, 0x6f, 0x67, 0x34, 0x74, 0x63, 0x2d, 0x72, 0x75, 0x73, 0x74, 0, 0, 0, 0, 0,
    ]
}

fn push_device_name(out: &mut Vec<u8>)
    ensures
        final(out)@ == old(out)@ + device_name_bytes(),
{
    out.push(0x6c);
    out.push(0x6f);
    out.push(0x67);
    out.push(0x34);
    out.push(0x74);
    out.push(0x63);
    out.push(0x2d);
    out.push(0x72);
    out.push(0x75);
    out.push(0x73);
    out.push(0x74);
    out.push(0);
    out.push(0);
    out.push(0);
    out.push(0);
    out.push(0);
    assert(out@ =~= old(out)@ + device_name_bytes());
}

/// Data of the answer to a device-information request: result 0, version
/// 0.1, build 1, device name.
pub open spec fn device_info_payload() -> Seq<u8> {
    le_bytes_u32(0) + seq![0u8, 1u8] + le_bytes_u16(1) + device_name_bytes()
}

/// Data of the answer to a read request for `n` bytes: result 0, length
/// `n`, then `n` zero bytes.
pub open spec fn read_payload(n: u32) -> Seq<u8> {
    le_bytes_u32(0) + le_bytes_u32(n) + Seq::new(n as nat, |i: int| 0u8)
}

/// Data of the answer to a read-state request: result 0, ADS state RUN (5),
/// device state 0.
pub open spec fn read_state_payload() -> Seq<u8> {
    le_bytes_u32(0) + le_bytes_u16(5) + le_bytes_u16(0)
}

/// Data of the answer "result 0" (write requests and unknown commands).
pub open spec fn success_payload() -> Seq<u8> {
    le_bytes_u32(0)
}

/// The data of the answer to the AMS packet `data` with header `h`.
pub open spec fn reply_payload(h: AmsHeader, data: Seq<u8>) -> Result<Seq<u8>, AdsErrorModel> {
    let body = data.skip(AMS_HEADER_LEN as int);
    if h.command_id == ADS_CMD_READ_DEVICE_INFO {
        Ok(device_info_payload())
    } else if h.command_id == ADS_CMD_READ {
        if body.len() < 12 {
            Err(AdsErrorModel::ParseError("Read request too short"@))
        } else {
            Ok(read_payload(le_u32(body.subrange(8, 12)) as u32))
        }
    } else if h.command_id == ADS_CMD_READ_STATE {
        Ok(read_state_payload())
    } else if h.command_id == ADS_CMD_WRITE {
        match spec_write_data(body) {
            Err(e) => Err(e),
            Ok(_) => Ok(success_payload()),
        }
    } else {
        Ok(success_payload())
    }
}

/// The full answer (header and data) to a packet with header `h` whose
/// answer data is `payload`.
pub open spec fn reply_bytes(h: AmsHeader, payload: Seq<u8>) -> Seq<u8> {
    header_bytes(AmsHeader { data_length: payload.len() as u32, ..response_header(h, 0) })
        + payload
}

/// What handling one AMS packet gives: the answer to send back, and for a
/// write to the log port the outcome of parsing its data as log entries.
pub struct FrameReply {
    pub response: Vec<u8>,
    pub entries: Option<Result<Vec<AdsLogEntry>, AdsError>>,
}

/// Whether `entries` is the outcome of parsing `d` as log entries.
pub open spec fn parsed_as(entries: Result<Vec<AdsLogEntry>, AdsError>, d: Seq<u8>) -> bool {
    match spec_parse_all(d) {
        Ok(es) => entries matches Ok(v) && entries_view(v@) == es,
        Err(e) => entries matches Err(x) && x@ == e,
    }
}

fn answer(h: &AmsHeader, payload: Vec<u8>) -> (v: Vec<u8>)
    ensures
        v@ == reply_bytes(*h, payload@),
{
    let mut rh = h.make_response(0);
    rh.data_length = payload.len() as u32;
    let mut response = rh.serialize();
    let mut i: usize = 0;
    while i < payload.len()
        invariant
            i <= payload@.len(),
            response@ == header_bytes(rh) + payload@.take(i as int),
        decreases payload.len() - i,
    {
        response.push(payload[i]);
        i = i + 1;
        assert(response@ =~= header_bytes(rh) + payload@.take(i as int));
    }
    assert(payload@.take(payload@.len() as int) =~= payload@);
    response
}

/// Handles one AMS packet (`data`, header included): builds the answer, and
/// for a write addressed to `ads_port` parses its data as log entries.
/// Packets shorter than a header are refused, as are read and write requests
/// too short for their fields.
pub fn handle_frame(data: &[u8], ads_port: u16) -> (r: Result<FrameReply, AdsError>)
    ensures
        data@.len() < AMS_HEADER_LEN ==> (r matches Err(e) && e@ == AdsErrorModel::ParseError(
            "AMS header too short"@,
        )),
        data@.len() >= AMS_HEADER_LEN ==> exists|h: AmsHeader|
            #![trigger header_read_from(h, data@)]
            header_read_from(h, data@) && match reply_payload(h, data@) {
                Err(e) => r matches Err(x) && x@ == e,
                Ok(payload) => r matches Ok(reply) && reply.response@ == reply_bytes(h, payload)
                    && match reply.entries {
                    Some(es) => h.command_id == ADS_CMD_WRITE && h.target_port == ads_port
                        && parsed_as(es, spec_write_data(data@.skip(AMS_HEADER_LEN as int))->Ok_0),
                    None => !(h.command_id == ADS_CMD_WRITE && h.target_port == ads_port),
                },
            },
{
    if data.len() < AMS_HEADER_LEN {
        return Err(AdsError::ParseError(String::from_str("AMS header too short")));
    }
    let header = AmsHeader::parse(data)?;
    let ghost body = data@.skip(AMS_HEADER_LEN as int);
    let mut payload: Vec<u8> = Vec::new();
    let mut entries: Option<Result<Vec<AdsLogEntry>, AdsError>> = None;
    if header.command_id == ADS_CMD_READ_DEVICE_INFO {
        push_u32(&mut payload, 0);
        payload.push(0);
        payload.push(1);
        push_u16(&mut payload, 1);
        push_device_name(&mut payload);
        assert(payload@ =~= device_info_payload());
    } else if header.command_id == ADS_CMD_READ {
        if data.len() - AMS_HEADER_LEN < 12 {
            return Err(AdsError::ParseError(String::from_str("Read request too short")));
        }
        let read_length = le32(data[40], data[41], data[42], data[43]);
        assert(body.subrange(8, 12) =~= seq![data@[40], data@[41], data@[42], data@[43]]);
        let actual_data = vec![0u8; read_length as usize];
        push_u32(&mut payload, 0);
        push_u32(&mut payload, actual_data.len() as u32);
        let mut i: usize = 0;
        let ghost start = payload@;
        while i < actual_data.len()
            invariant
                i <= actual_data@.len(),
                actual_data@ == Seq::new(read_length as nat, |k: int| 0u8),
                payload@ == start + actual_data@.take(i as int),
            decreases actual_data.len() - i,
        {
            payload.push(actual_data[i]);
            i = i + 1;
            assert(payload@ =~= start + actual_data@.take(i as int));
        }
        assert(actual_data@.take(actual_data@.len() as int) =~= actual_data@);
        assert(payload@ =~= read_payload(read_length));
    } else if header.command_id == ADS_CMD_READ_STATE {
        push_u32(&mut payload, 0);
        push_u16(&mut payload, 5);
        push_u16(&mut payload, 0);
        assert(payload@ =~= read_state_payload());
    } else if header.command_id == ADS_CMD_WRITE {
        let write_req = AdsWriteRequest::parse(&data[AMS_HEADER_LEN..data.len()])?;
        if header.target_port == ads_port {
            entries = Some(AdsParser::parse_all(write_req.data.as_slice()));
        }
        push_u32(&mut payload, 0);
    } else {
        push_u32(&mut payload, 0);
    }
    let response = answer(&header, payload);
    Ok(FrameReply { response, entries })
}

/// The length of the AMS packet announced by a six-byte AMS/TCP prefix, or
/// `None` when the frame must close the connection (reserved bytes not zero,
/// or a length of zero or above 1 MiB).
pub fn tcp_frame_length(prefix: &[u8; 6]) -> (r: Option<usize>)
    ensures
        ({
            let reserved = le_u16(prefix@.subrange(0, 2));
            let len = le_u32(prefix@.subrange(2, 6));
            if reserved != 0 || len == 0 || len > MAX_AMS_PACKET {
                r is None
            } else {
                r == Some(len as usize)
            }
        }),
{
    let reserved = le16(prefix[0], prefix[1]);
    let data_len = le32(prefix[2], prefix[3], prefix[4], prefix[5]) as usize;
    assert(prefix@.subrange(0, 2) =~= seq![prefix@[0], prefix@[1]]);
    assert(prefix@.subrange(2, 6) =~= seq![prefix@[2], prefix@[3], prefix@[4], prefix@[5]]);
    if reserved != 0 {
        return None;
    }
    if data_len == 0 || data_len > MAX_AMS_PACKET {
        return None;
    }
    Some(data_len)
}

/// An AMS/TCP frame around an AMS packet: two zero bytes, the packet's
/// length (as a `u32`), the packet.
pub fn tcp_frame(packet: &Vec<u8>) -> (v: Vec<u8>)
    ensures
        v@ == le_bytes_u16(0) + le_bytes_u32(packet@.len() as u32) + packet@,
{
    let mut v: Vec<u8> = Vec::new();
    push_u16(&mut v, 0);
    push_u32(&mut v, packet.len() as u32);
    let ghost start = v@;
    let mut i: usize = 0;
    while i < packet.len()
        invariant
            i <= packet@.len(),
            v@ == start + packet@.take(i as int),
        decreases packet.len() - i,
    {
        v.push(packet[i]);
        i = i + 1;
        assert(v@ =~= start + packet@.take(i as int));
    }
    assert(packet@.take(packet@.len() as int) =~= packet@);
    v
}

/// The answer to a UDP route-discovery packet: magic 03 66 14 71, data
/// length 24, the Net ID, the AMS/TCP port, the device name.
pub open spec fn discovery_response_bytes(net_id: AmsNetId) -> Seq<u8> {
    seq![0x03u8, 0x66, 0x14, 0x71] + le_bytes_u32(24) + net_id.octets@ + le_bytes_u16(AMS_TCP_PORT)
        + device_name_bytes()
}

/// Builds the answer to a UDP route-discovery packet.
pub fn build_udp_discovery_response(net_id: &AmsNetId) -> (v: Vec<u8>)
    ensures
        v@ == discovery_response_bytes(*net_id),
{
    let mut resp: Vec<u8> = Vec::new();
    resp.push(0x03);
    resp.push(0x66);
    resp.push(0x14);
    resp.push(0x71);
    push_u32(&mut resp, 24);
    push_net_id(&mut resp, net_id);
    push_u16(&mut resp, AMS_TCP_PORT);
    push_device_name(&mut resp);
    assert(resp@ =~= discovery_response_bytes(*net_id));
    resp
}


/// Reading a header back from its 32 bytes gives the same header.
pub proof fn law_header_roundtrip(h: AmsHeader)
    ensures
        header_bytes(h).len() == AMS_HEADER_LEN,
        header_read_from(h, header_bytes(h)),
{
    let b = header_bytes(h);
    lemma_le16_roundtrip(h.target_port);
    lemma_le16_roundtrip(h.source_port);
    lemma_le16_roundtrip(h.command_id);
    lemma_le16_roundtrip(h.state_flags);
    lemma_le32_roundtrip(h.data_length);
    lemma_le32_roundtrip(h.error_code);
    lemma_le32_roundtrip(h.invoke_id);
    assert(b.subrange(0, 6) =~= h.target_net_id.octets@);
    assert(b.subrange(6, 8) =~= le_bytes_u16(h.target_port));
    assert(b.subrange(8, 14) =~= h.source_net_id.octets@);
    assert(b.subrange(14, 16) =~= le_bytes_u16(h.source_port));
    assert(b.subrange(16, 18) =~= le_bytes_u16(h.command_id));
    assert(b.subrange(18, 20) =~= le_bytes_u16(h.state_flags));
    assert(b.subrange(20, 24) =~= le_bytes_u32(h.data_length));
    assert(b.subrange(24, 28) =~= le_bytes_u32(h.error_code));
    assert(b.subrange(28, 32) =~= le_bytes_u32(h.invoke_id));
}

/// A response answers the packet it was made from: its addresses are the
/// packet's swapped, it carries the response flag, the same command and
/// invoke id; and the response to a response is addressed like the
/// packet itself.
pub proof fn law_response_swaps_back(h: AmsHeader, e1: u32, e2: u32)
    ensures
        response_header(h, e1).target_net_id == h.source_net_id,
        response_header(h, e1).target_port == h.source_port,
        response_header(h, e1).source_net_id == h.target_net_id,
        response_header(h, e1).source_port == h.target_port,
        response_header(h, e1).state_flags & STATE_FLAG_RESPONSE == STATE_FLAG_RESPONSE,
        response_header(h, e1).command_id == h.command_id,
        response_header(h, e1).invoke_id == h.invoke_id,
        response_header(response_header(h, e1), e2).target_net_id == h.target_net_id,
        response_header(response_header(h, e1), e2).target_port == h.target_port,
        response_header(response_header(h, e1), e2).source_net_id == h.source_net_id,
        response_header(response_header(h, e1), e2).source_port == h.source_port,
{
    let f = h.state_flags;
    assert((f | 0x0001u16) & 0x0001u16 == 0x0001u16) by (bit_vector);
}

/// The prefix of a frame built for a packet of acceptable length announces
/// that packet's length.
pub proof fn law_frame_length_roundtrip(n: nat)
    requires
        0 < n <= MAX_AMS_PACKET,
    ensures
        le_u16((le_bytes_u16(0) + le_bytes_u32(n as u32)).subrange(0, 2)) == 0,
        le_u32((le_bytes_u16(0) + le_bytes_u32(n as u32)).subrange(2, 6)) == n,
{
    let p = le_bytes_u16(0) + le_bytes_u32(n as u32);
    lemma_le16_roundtrip(0);
    lemma_le32_roundtrip(n as u32);
    assert(p.subrange(0, 2) =~= le_bytes_u16(0));
    assert(p.subrange(2, 6) =~= le_bytes_u32(n as u32));
}


proof fn lemma_dot_fields_nonempty(s: Seq<char>)
    ensures
        dot_fields(s).len() >= 1,
    decreases s.len(),
{
    if s.len() > 0 {
        lemma_dot_fields_nonempty(s.drop_last());
    }
}

/// Appending text without dots extends the last field.
proof fn lemma_dot_fields_extend(a: Seq<char>, b: Seq<char>)
    requires
        forall|i: int| 0 <= i < b.len() ==> b[i] != '.',
    ensures
        dot_fields(a + b) == dot_fields(a).update(
            dot_fields(a).len() - 1,
            dot_fields(a).last() + b,
        ),
        dot_fields(a + b).len() == dot_fields(a).len(),
    decreases b.len(),
{
    lemma_dot_fields_nonempty(a);
    let fa = dot_fields(a);
    if b.len() == 0 {
        assert(a + b =~= a);
        assert(fa.last() + b =~= fa.last());
        assert(fa.update(fa.len() - 1, fa.last()) =~= fa);
    } else {
        let b0 = b.drop_last();
        lemma_dot_fields_extend(a, b0);
        assert((a + b).drop_last() =~= a + b0);
        assert((a + b).last() == b.last());
        let f = dot_fields(a + b0);
        assert(f.last() =~= fa.last() + b0);
        assert(f.last().push(b.last()) =~= fa.last() + b);
        assert(f.update(f.len() - 1, f.last().push(b.last())) =~= fa.update(
            fa.len() - 1,
            fa.last() + b,
        ));
    }
}

/// A dot followed by text without dots adds that text as a new field.
proof fn lemma_dot_fields_next(a: Seq<char>, d: Seq<char>)
    requires
        forall|i: int| 0 <= i < d.len() ==> d[i] != '.',
    ensures
        dot_fields(a + "."@ + d) == dot_fields(a).push(d),
{
    reveal_strlit(".");
    let ad = a + "."@;
    assert(ad.drop_last() =~= a);
    assert(ad.last() == '.');
    assert(dot_fields(ad) == dot_fields(a).push(Seq::<char>::empty()));
    lemma_dot_fields_extend(ad, d);
    assert(Seq::<char>::empty() + d =~= d);
    assert(dot_fields(a).push(Seq::<char>::empty()).update(dot_fields(a).len() as int, d)
        =~= dot_fields(a).push(d));
}

proof fn lemma_octet_text(b: u8)
    ensures
        forall|i: int| 0 <= i < decimal(b as nat).len() ==> decimal(b as nat)[i] != '.',
        field_octet(decimal(b as nat)) == Some(b),
{
    lemma_decimal_reads_back(b as nat);
    let d = decimal(b as nat);
    assert forall|i: int| 0 <= i < d.len() implies d[i] != '.' by {
        assert(is_digit(d[i]));
    }
    assert(!(d.len() > 1 && d[0] == '+')) by {
        assert(is_digit(d[0]));
    }
}

/// Reading back the text of a Net ID gives the same Net ID.
pub proof fn law_net_id_text_roundtrip(id: AmsNetId)
    ensures
        net_id_of_text(net_id_text(id.octets@)) == Some(id.octets@),
{
    let o = id.octets@;
    let d0 = decimal(o[0] as nat);
    let d1 = decimal(o[1] as nat);
    let d2 = decimal(o[2] as nat);
    let d3 = decimal(o[3] as nat);
    let d4 = decimal(o[4] as nat);
    let d5 = decimal(o[5] as nat);
    lemma_octet_text(o[0]);
    lemma_octet_text(o[1]);
    lemma_octet_text(o[2]);
    lemma_octet_text(o[3]);
    lemma_octet_text(o[4]);
    lemma_octet_text(o[5]);
    let t1 = d0;
    let t2 = t1 + "."@ + d1;
    let t3 = t2 + "."@ + d2;
    let t4 = t3 + "."@ + d3;
    let t5 = t4 + "."@ + d4;
    let t6 = t5 + "."@ + d5;
    assert(t6 == net_id_text(o));
    lemma_dot_fields_extend(Seq::<char>::empty(), d0);
    assert(Seq::<char>::empty() + d0 =~= d0);
    assert(dot_fields(Seq::<char>::empty()) == seq![Seq::<char>::empty()]);
    assert(dot_fields(t1) =~= seq![d0]);
    lemma_dot_fields_next(t1, d1);
    lemma_dot_fields_next(t2, d2);
    lemma_dot_fields_next(t3, d3);
    lemma_dot_fields_next(t4, d4);
    lemma_dot_fields_next(t5, d5);
    let f = dot_fields(t6);
    assert(f =~= seq![d0, d1, d2, d3, d4, d5]);
    assert(forall|i: int| 0 <= i < 6 ==> (#[trigger] field_octet(f[i])) == Some(o[i]));
    assert(Seq::new(6, |i: int| field_octet(f[i])->0) =~= o);
}


/// The answer to a packet reads back as the response header (addresses
/// swapped, response flag set, error code 0, the data's length) followed by
/// the answer's data.
pub proof fn law_reply_reads_back(h: AmsHeader, payload: Seq<u8>)
    requires
        payload.len() <= u32::MAX,
    ensures
        reply_bytes(h, payload).len() == AMS_HEADER_LEN + payload.len(),
        header_read_from(
            AmsHeader { data_length: payload.len() as u32, ..response_header(h, 0) },
            reply_bytes(h, payload),
        ),
        reply_bytes(h, payload).skip(AMS_HEADER_LEN as int) == payload,
{
    let rh = AmsHeader { data_length: payload.len() as u32, ..response_header(h, 0) };
    law_header_roundtrip(rh);
    let b = reply_bytes(h, payload);
    let hb = header_bytes(rh);
    assert(b.subrange(0, 6) =~= hb.subrange(0, 6));
    assert(b.subrange(6, 8) =~= hb.subrange(6, 8));
    assert(b.subrange(8, 14) =~= hb.subrange(8, 14));
    assert(b.subrange(14, 16) =~= hb.subrange(14, 16));
    assert(b.subrange(16, 18) =~= hb.subrange(16, 18));
    assert(b.subrange(18, 20) =~= hb.subrange(18, 20));
    assert(b.subrange(20, 24) =~= hb.subrange(20, 24));
    assert(b.subrange(24, 28) =~= hb.subrange(24, 28));
    assert(b.subrange(28, 32) =~= hb.subrange(28, 32));
    assert(b.skip(32) =~= payload);
}

} // verus!
