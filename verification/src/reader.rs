//! Sequential little-endian reading of an ADS byte buffer.
//!
//! Each read is specified by a function on the buffer and a position that
//! gives either the value read and the position after it, or the error.

use vstd::prelude::*;
use vstd::utf8::{
    decode_utf8, encode_utf8, encode_utf8_decode_utf8, encode_utf8_valid_utf8, valid_utf8,
};
use crate::errors::{limit_message, AdsError, AdsErrorModel};
use crate::text::{
    append_chars, chars_to_string, decimal, decimal_pad2, decode_utf16_lossy, str_to_chars,
    u64_to_decimal, u64_to_decimal_pad2, utf16_lossy_to_string, utf8_error_text, utf8_to_string,
};
use crate::timestamp::{
    chrono_utc_format, utc_format_text, utc_timestamp_in_range, Timestamp, ISO_DATE_TIME_PATTERN,
};
use crate::values::{AdsValue, AdsValueModel, f32_bits_finite, f64_bits_finite, integer_value};

verus! {

/// The bytes `p .. p + n` of `d` and the position after them, or an
/// `IncompleteMessage` error naming `n` and the bytes that are left.
pub open spec fn take_bytes(d: Seq<u8>, p: int, n: nat) -> Result<(Seq<u8>, int), AdsErrorModel> {
    if d.len() - p < n {
        Err(AdsErrorModel::IncompleteMessage { expected: n as usize, got: (d.len() - p) as usize })
    } else {
        Ok((d.subrange(p, p + n), p + n))
    }
}

/// Little-endian value of two bytes.
pub open spec fn le_u16(b: Seq<u8>) -> nat {
    (b[0] + 256 * b[1]) as nat
}

/// Little-endian value of four bytes.
pub open spec fn le_u32(b: Seq<u8>) -> nat {
    (b[0] + 0x100 * b[1] + 0x1_0000 * b[2] + 0x100_0000 * b[3]) as nat
}

/// Little-endian value of eight bytes.
pub open spec fn le_u64(b: Seq<u8>) -> nat {
    (b[0] + 0x100 * b[1] + 0x1_0000 * b[2] + 0x100_0000 * b[3] + 0x1_0000_0000 * b[4]
        + 0x100_0000_0000 * b[5] + 0x1_0000_0000_0000 * b[6] + 0x100_0000_0000_0000
        * b[7]) as nat
}

/// Little-endian bytes of a `u16`.
pub open spec fn le_bytes_u16(x: u16) -> Seq<u8> {
    seq![(x % 256) as u8, (x / 256) as u8]
}

/// Little-endian bytes of a `u32`.
pub open spec fn le_bytes_u32(x: u32) -> Seq<u8> {
    seq![
        (x % 0x100) as u8,
        ((x / 0x100) % 0x100) as u8,
        ((x / 0x1_0000) % 0x100) as u8,
        (x / 0x100_0000) as u8,
    ]
}

/// Little-endian bytes of a `u64`.
pub open spec fn le_bytes_u64(x: u64) -> Seq<u8> {
    le_bytes_u32((x % 0x1_0000_0000) as u32) + le_bytes_u32((x / 0x1_0000_0000) as u32)
}

/// Two little-endian bytes read back as the `u16` they came from.
pub proof fn lemma_le16_roundtrip(x: u16)
    ensures
        le_u16(le_bytes_u16(x)) == x,
{
    assert(((x % 256) as u8) as int == x % 256);
    assert(((x / 256) as u8) as int == x / 256);
}

/// Four little-endian bytes read back as the `u32` they came from.
pub proof fn lemma_le32_roundtrip(x: u32)
    ensures
        le_u32(le_bytes_u32(x)) == x,
{
    let b = le_bytes_u32(x);
    assert(b[0] as int == x % 0x100);
    assert(b[1] as int == (x / 0x100) % 0x100);
    assert(b[2] as int == (x / 0x1_0000) % 0x100);
    assert(b[3] as int == x / 0x100_0000);
    assert(x % 0x100 + 0x100 * ((x / 0x100) % 0x100) + 0x1_0000 * ((x / 0x1_0000) % 0x100)
        + 0x100_0000 * (x / 0x100_0000) == x) by (nonlinear_arith);
}

/// Eight little-endian bytes read back as the `u64` they came from.
pub proof fn lemma_le64_roundtrip(x: u64)
    ensures
        le_u64(le_bytes_u64(x)) == x,
{
    let lo = (x % 0x1_0000_0000) as u32;
    let hi = (x / 0x1_0000_0000) as u32;
    lemma_le32_roundtrip(lo);
    lemma_le32_roundtrip(hi);
    let b = le_bytes_u64(x);
    let bl = le_bytes_u32(lo);
    let bh = le_bytes_u32(hi);
    assert(b[0] == bl[0] && b[1] == bl[1] && b[2] == bl[2] && b[3] == bl[3]);
    assert(b[4] == bh[0] && b[5] == bh[1] && b[6] == bh[2] && b[7] == bh[3]);
    assert(le_u64(b) == le_u32(bl) + 0x1_0000_0000 * le_u32(bh));
    assert(x == lo + 0x1_0000_0000 * hi) by (nonlinear_arith)
        requires
            lo == x % 0x1_0000_0000,
            hi == x / 0x1_0000_0000,
    ;
}

/// The two's-complement reading of an unsigned value `u` whose sign bit is
/// worth `half`.
pub open spec fn twos_complement(u: nat, half: nat) -> int {
    if u >= half {
        u - 2 * half
    } else {
        u as int
    }
}

/// A byte.
pub open spec fn spec_read_u8(d: Seq<u8>, p: int) -> Result<(u8, int), AdsErrorModel> {
    match take_bytes(d, p, 1) {
        Ok((b, q)) => Ok((b[0], q)),
        Err(e) => Err(e),
    }
}

/// A little-endian `u16`.
pub open spec fn spec_read_u16(d: Seq<u8>, p: int) -> Result<(u16, int), AdsErrorModel> {
    match take_bytes(d, p, 2) {
        Ok((b, q)) => Ok((le_u16(b) as u16, q)),
        Err(e) => Err(e),
    }
}

/// A little-endian `i16`.
pub open spec fn spec_read_i16(d: Seq<u8>, p: int) -> Result<(i16, int), AdsErrorModel> {
    match take_bytes(d, p, 2) {
        Ok((b, q)) => Ok((twos_complement(le_u16(b), 0x8000) as i16, q)),
        Err(e) => Err(e),
    }
}

/// A little-endian `u32`.
pub open spec fn spec_read_u32(d: Seq<u8>, p: int) -> Result<(u32, int), AdsErrorModel> {
    match take_bytes(d, p, 4) {
        Ok((b, q)) => Ok((le_u32(b) as u32, q)),
        Err(e) => Err(e),
    }
}

/// A little-endian `i32`.
pub open spec fn spec_read_i32(d: Seq<u8>, p: int) -> Result<(i32, int), AdsErrorModel> {
    match take_bytes(d, p, 4) {
        Ok((b, q)) => Ok((twos_complement(le_u32(b), 0x8000_0000) as i32, q)),
        Err(e) => Err(e),
    }
}

/// A little-endian `u64`.
pub open spec fn spec_read_u64(d: Seq<u8>, p: int) -> Result<(u64, int), AdsErrorModel> {
    match take_bytes(d, p, 8) {
        Ok((b, q)) => Ok((le_u64(b) as u64, q)),
        Err(e) => Err(e),
    }
}

/// A little-endian `i64`.
pub open spec fn spec_read_i64(d: Seq<u8>, p: int) -> Result<(i64, int), AdsErrorModel> {
    match take_bytes(d, p, 8) {
        Ok((b, q)) => Ok((twos_complement(le_u64(b), 0x8000_0000_0000_0000) as i64, q)),
        Err(e) => Err(e),
    }
}

/// Longest string the reader accepts.
pub const MAX_STRING_LENGTH: usize = 65_536;

/// FILETIME (100 ns steps since 1601-01-01) of the Unix epoch.
pub const FILETIME_EPOCH_DIFF: u64 = 116_444_736_000_000_000;

/// A string field: one length byte, then that many bytes of UTF-8.
pub open spec fn spec_read_string(d: Seq<u8>, p: int) -> Result<(Seq<char>, int), AdsErrorModel> {
    match spec_read_u8(d, p) {
        Err(e) => Err(e),
        Ok((len, q)) => match take_bytes(d, q, len as nat) {
            Err(e) => Err(e),
            Ok((b, r)) => if valid_utf8(b) {
                Ok((decode_utf8(b), r))
            } else {
                Err(AdsErrorModel::InvalidStringEncoding(utf8_error_text(b)))
            },
        },
    }
}

/// Where the reader stands after a string field fails: a missing length
/// byte consumes nothing, data shorter than the length consumes the length
/// byte, and bytes that are not UTF-8 are consumed with their length byte.
pub open spec fn string_error_position(d: Seq<u8>, p: int) -> int {
    match spec_read_u8(d, p) {
        Err(_) => p,
        Ok((len, q)) => match take_bytes(d, q, len as nat) {
            Err(_) => q,
            Ok((_, r)) => r,
        },
    }
}

/// The Unix seconds and nanoseconds of a FILETIME at or after the Unix
/// epoch.
#[verifier::opaque]
pub open spec fn filetime_instant(ft: u64) -> (i64, u32) {
    let u = ft - FILETIME_EPOCH_DIFF;
    (((u / 10_000_000) as i64, ((u % 10_000_000) * 100) as u32))
}

/// A FILETIME field (eight bytes) as seconds and nanoseconds since the Unix
/// epoch; instants before the epoch are refused.
pub open spec fn spec_read_filetime(d: Seq<u8>, p: int) -> Result<((i64, u32), int), AdsErrorModel> {
    match spec_read_u64(d, p) {
        Err(e) => Err(e),
        Ok((ft, q)) => if ft < FILETIME_EPOCH_DIFF {
            Err(AdsErrorModel::InvalidTimestamp("Timestamp before Unix epoch"@))
        } else {
            Ok((filetime_instant(ft), q))
        },
    }
}

/// Text of a TIME value (milliseconds): "T#<s>s<ms>ms".
pub open spec fn time_text(ms: nat) -> Seq<char> {
    "T#"@ + decimal(ms / 1000) + "s"@ + decimal(ms % 1000) + "ms"@
}

/// Text of an LTIME value (100 ns steps): "LTIME#<us>us".
pub open spec fn ltime_text(ns100: nat) -> Seq<char> {
    "LTIME#"@ + decimal(ns100 / 10) + "us"@
}

/// Text of a TIME_OF_DAY value (milliseconds since midnight): "TOD#hh:mm:ss".
pub open spec fn tod_text(ms: nat) -> Seq<char> {
    "TOD#"@ + decimal_pad2(ms / 3_600_000) + ":"@ + decimal_pad2((ms % 3_600_000) / 60_000) + ":"@
        + decimal_pad2((ms % 60_000) / 1000)
}

/// UTF-16 code units from little-endian byte pairs.
pub open spec fn utf16_units(b: Seq<u8>) -> Seq<u16> {
    Seq::new(b.len() / 2, |i: int| (b[2 * i] + 256 * b[2 * i + 1]) as u16)
}

/// The value of an ENUM, read by its underlying type code `u` at `q`.
pub open spec fn spec_enum_value(d: Seq<u8>, q: int, u: int) -> Result<(AdsValueModel, int), AdsErrorModel> {
    if u == 1 || u == 9 {
        match spec_read_u8(d, q) {
            Err(e) => Err(e),
            Ok((v, r)) => Ok((AdsValueModel::UInt(v as u64), r)),
        }
    } else if u == 2 || u == 10 {
        match spec_read_u16(d, q) {
            Err(e) => Err(e),
            Ok((v, r)) => Ok((AdsValueModel::UInt(v as u64), r)),
        }
    } else if u == 3 || u == 11 {
        match spec_read_u32(d, q) {
            Err(e) => Err(e),
            Ok((v, r)) => Ok((AdsValueModel::UInt(v as u64), r)),
        }
    } else if u == 15 {
        match spec_read_u64(d, q) {
            Err(e) => Err(e),
            Ok((v, r)) => Ok((AdsValueModel::UInt(v), r)),
        }
    } else {
        Ok((AdsValueModel::Null, q))
    }
}

/// The value of type code `t` whose payload starts at `q`.
pub open spec fn spec_value_payload(d: Seq<u8>, q: int, t: int) -> Result<(AdsValueModel, int), AdsErrorModel> {
    if t == 0 {
        Ok((AdsValueModel::Null, q))
    } else if t == 1 || t == 9 || t == 2 || t == 10 || t == 3 || t == 11 || t == 15 {
        spec_enum_value(d, q, t)
    } else if t == 4 {
        match spec_read_u32(d, q) {
            Err(e) => Err(e),
            Ok((bits, r)) => Ok((
                if f32_bits_finite(bits) {
                    AdsValueModel::Real(bits)
                } else {
                    AdsValueModel::Null
                },
                r,
            )),
        }
    } else if t == 5 {
        match spec_read_u64(d, q) {
            Err(e) => Err(e),
            Ok((bits, r)) => Ok((
                if f64_bits_finite(bits) {
                    AdsValueModel::LReal(bits)
                } else {
                    AdsValueModel::Null
                },
                r,
            )),
        }
    } else if t == 6 {
        match spec_read_u8(d, q) {
            Err(e) => Err(e),
            Ok((v, r)) => Ok((integer_value(twos_complement(v as nat, 0x80)), r)),
        }
    } else if t == 7 {
        match spec_read_i16(d, q) {
            Err(e) => Err(e),
            Ok((v, r)) => Ok((integer_value(v as int), r)),
        }
    } else if t == 8 {
        match spec_read_i32(d, q) {
            Err(e) => Err(e),
            Ok((v, r)) => Ok((integer_value(v as int), r)),
        }
    } else if t == 12 {
        match spec_read_string(d, q) {
            Err(e) => Err(e),
            Ok((s, r)) => Ok((AdsValueModel::Text(s), r)),
        }
    } else if t == 13 {
        match spec_read_u8(d, q) {
            Err(e) => Err(e),
            Ok((v, r)) => Ok((AdsValueModel::Bool(v != 0), r)),
        }
    } else if t == 17 {
        match spec_read_i64(d, q) {
            Err(e) => Err(e),
            Ok((v, r)) => Ok((integer_value(v as int), r)),
        }
    } else if t == 20000 {
        match spec_read_u32(d, q) {
            Err(e) => Err(e),
            Ok((ms, r)) => Ok((AdsValueModel::Text(time_text(ms as nat)), r)),
        }
    } else if t == 20001 {
        match spec_read_u64(d, q) {
            Err(e) => Err(e),
            Ok((ns, r)) => Ok((AdsValueModel::Text(ltime_text(ns as nat)), r)),
        }
    } else if t == 20004 {
        match spec_read_u32(d, q) {
            Err(e) => Err(e),
            Ok((ms, r)) => Ok((AdsValueModel::Text(tod_text(ms as nat)), r)),
        }
    } else if t == 20002 || t == 20003 {
        match spec_read_u32(d, q) {
            Err(e) => Err(e),
            Ok((secs, r)) => Ok((
                AdsValueModel::Text(chrono_utc_format(secs as i64, ISO_DATE_TIME_PATTERN@)),
                r,
            )),
        }
    } else if t == 20005 {
        match spec_read_i16(d, q) {
            Err(e) => Err(e),
            Ok((u, r)) => spec_enum_value(d, r, u as int),
        }
    } else if t == 20006 {
        match spec_read_u8(d, q) {
            Err(e) => Err(e),
            Ok((count, r)) => match take_bytes(d, r, 2 * count as nat) {
                Err(e) => Err(e),
                Ok((b, s)) => Ok((AdsValueModel::Text(decode_utf16_lossy(utf16_units(b))), s)),
            },
        }
    } else {
        Ok((AdsValueModel::Null, q))
    }
}

/// A typed value: a two-byte type code, then its payload.
#[verifier::opaque]
pub open spec fn spec_read_value(d: Seq<u8>, p: int) -> Result<(AdsValueModel, int), AdsErrorModel> {
    match spec_read_i16(d, p) {
        Err(e) => Err(e),
        Ok((t, q)) => spec_value_payload(d, q, t as int),
    }
}

/// Reading a value moves past at least its type code and never beyond the
/// buffer.
pub proof fn lemma_read_value_advances(d: Seq<u8>, p: int)
    ensures
        spec_read_value(d, p) matches Ok((_, q)) ==> p + 2 <= q <= d.len(),
{
    reveal(spec_read_value);
}

/// Reading a string moves past at least its length byte and never beyond
/// the buffer.
pub proof fn lemma_read_string_advances(d: Seq<u8>, p: int)
    ensures
        spec_read_string(d, p) matches Ok((_, q)) ==> p + 1 <= q <= d.len(),
{
}

fn time_string(ms: u32) -> (s: String)
    ensures
        s@ == time_text(ms as nat),
{
    let mut v = str_to_chars("T#");
    append_chars(&mut v, &u64_to_decimal((ms / 1000) as u64));
    append_chars(&mut v, &str_to_chars("s"));
    append_chars(&mut v, &u64_to_decimal((ms % 1000) as u64));
    append_chars(&mut v, &str_to_chars("ms"));
    chars_to_string(&v)
}

fn ltime_string(ns100: u64) -> (s: String)
    ensures
        s@ == ltime_text(ns100 as nat),
{
    let mut v = str_to_chars("LTIME#");
    append_chars(&mut v, &u64_to_decimal(ns100 / 10));
    append_chars(&mut v, &str_to_chars("us"));
    chars_to_string(&v)
}

fn tod_string(ms: u32) -> (s: String)
    ensures
        s@ == tod_text(ms as nat),
{
    let h = ms / 3_600_000;
    let m = (ms % 3_600_000) / 60_000;
    let sec = (ms % 60_000) / 1000;
    let mut v = str_to_chars("TOD#");
    append_chars(&mut v, &u64_to_decimal_pad2(h as u64));
    append_chars(&mut v, &str_to_chars(":"));
    append_chars(&mut v, &u64_to_decimal_pad2(m as u64));
    append_chars(&mut v, &str_to_chars(":"));
    append_chars(&mut v, &u64_to_decimal_pad2(sec as u64));
    chars_to_string(&v)
}

/// A cursor over a byte buffer.
pub struct BytesReader<'a> {
    data: &'a [u8],
    pos: usize,
}

impl<'a> View for BytesReader<'a> {
    /// The buffer and the position of the next byte to read.
    type V = (Seq<u8>, int);

    closed spec fn view(&self) -> (Seq<u8>, int) {
        (self.data@, self.pos as int)
    }
}

impl<'a> BytesReader<'a> {
    #[verifier::type_invariant]
    closed spec fn inv(&self) -> bool {
        self.pos <= self.data@.len()
    }

    /// A reader at the start of `data`.
    pub fn new(data: &'a [u8]) -> (r: Self)
        ensures
            r@ == (data@, 0int),
    {
        BytesReader { data, pos: 0 }
    }

    /// Number of bytes not yet read.
    pub fn remaining(&self) -> (n: usize)
        ensures
            n == self@.0.len() - self@.1,
            0 <= self@.1 <= self@.0.len(),
    {
        proof {
            use_type_invariant(self);
        }
        self.data.len() - self.pos
    }

    /// The next byte, without consuming it.
    pub fn peek(&self) -> (b: Option<u8>)
        ensures
            b == (if self@.1 < self@.0.len() {
                Some(self@.0[self@.1])
            } else {
                None::<u8>
            }),
    {
        if self.pos < self.data.len() {
            Some(self.data[self.pos])
        } else {
            None
        }
    }

    /// The next `n` bytes.
    pub fn read_bytes(&mut self, n: usize) -> (r: Result<&'a [u8], AdsError>)
        ensures
            final(self)@.0 == old(self)@.0,
            0 <= old(self)@.1 <= old(self)@.0.len(),
            0 <= final(self)@.1 <= final(self)@.0.len(),
            match take_bytes(old(self)@.0, old(self)@.1, n as nat) {
                Ok((b, q)) => r matches Ok(s) && s@ == b && final(self)@.1 == q,
                Err(e) => r matches Err(x) && x@ == e && final(self)@ == old(self)@,
            },
    {
        proof {
            use_type_invariant(&*self);
        }
        let rem = self.remaining();
        if rem < n {
            return Err(AdsError::IncompleteMessage { expected: n, got: rem });
        }
        let len = self.data.len();
        assert(self.pos + n <= len);
        let bytes = &self.data[self.pos..self.pos + n];
        self.pos = self.pos + n;
        Ok(bytes)
    }

    /// One byte.
    pub fn read_u8(&mut self) -> (r: Result<u8, AdsError>)
        ensures
            final(self)@.0 == old(self)@.0,
            match spec_read_u8(old(self)@.0, old(self)@.1) {
                Ok((v, q)) => r == Ok::<u8, AdsError>(v) && final(self)@.1 == q,
                Err(e) => r matches Err(x) && x@ == e && final(self)@.1 == old(self)@.1,
            },
    {
        let b = self.read_bytes(1)?;
        Ok(b[0])
    }

    /// A little-endian `u16`.
    pub fn read_u16(&mut self) -> (r: Result<u16, AdsError>)
        ensures
            final(self)@.0 == old(self)@.0,
            match spec_read_u16(old(self)@.0, old(self)@.1) {
                Ok((v, q)) => r == Ok::<u16, AdsError>(v) && final(self)@.1 == q,
                Err(e) => r matches Err(x) && x@ == e,
            },
    {
        let b = self.read_bytes(2)?;
        Ok(b[0] as u16 + (b[1] as u16) * 256)
    }

    /// A little-endian two's-complement `i16`.
    pub fn read_i16(&mut self) -> (r: Result<i16, AdsError>)
        ensures
            final(self)@.0 == old(self)@.0,
            match spec_read_i16(old(self)@.0, old(self)@.1) {
                Ok((v, q)) => r == Ok::<i16, AdsError>(v) && final(self)@.1 == q,
                Err(e) => r matches Err(x) && x@ == e,
            },
    {
        let b = self.read_bytes(2)?;
        let u: u16 = b[0] as u16 + (b[1] as u16) * 256;
        if u >= 0x8000 {
            Ok((u as i32 - 0x1_0000) as i16)
        } else {
            Ok(u as i16)
        }
    }

    /// A little-endian `u32`.
    pub fn read_u32(&mut self) -> (r: Result<u32, AdsError>)
        ensures
            final(self)@.0 == old(self)@.0,
            match spec_read_u32(old(self)@.0, old(self)@.1) {
                Ok((v, q)) => r == Ok::<u32, AdsError>(v) && final(self)@.1 == q,
                Err(e) => r matches Err(x) && x@ == e,
            },
    {
        let b = self.read_bytes(4)?;
        Ok(b[0] as u32 + (b[1] as u32) * 0x100 + (b[2] as u32) * 0x1_0000 + (b[3] as u32)
            * 0x100_0000)
    }

    /// A little-endian two's-complement `i32`.
    pub fn read_i32(&mut self) -> (r: Result<i32, AdsError>)
        ensures
            final(self)@.0 == old(self)@.0,
            match spec_read_i32(old(self)@.0, old(self)@.1) {
                Ok((v, q)) => r == Ok::<i32, AdsError>(v) && final(self)@.1 == q,
                Err(e) => r matches Err(x) && x@ == e,
            },
    {
        let b = self.read_bytes(4)?;
        let u: u32 = b[0] as u32 + (b[1] as u32) * 0x100 + (b[2] as u32) * 0x1_0000 + (
        b[3] as u32) * 0x100_0000;
        if u >= 0x8000_0000 {
            Ok((u as i64 - 0x1_0000_0000) as i32)
        } else {
            Ok(u as i32)
        }
    }

    /// A little-endian `u64`.
    pub fn read_u64(&mut self) -> (r: Result<u64, AdsError>)
        ensures
            final(self)@.0 == old(self)@.0,
            match spec_read_u64(old(self)@.0, old(self)@.1) {
                Ok((v, q)) => r == Ok::<u64, AdsError>(v) && final(self)@.1 == q,
                Err(e) => r matches Err(x) && x@ == e,
            },
    {
        let b = self.read_bytes(8)?;
        Ok(b[0] as u64 + (b[1] as u64) * 0x100 + (b[2] as u64) * 0x1_0000 + (b[3] as u64)
            * 0x100_0000 + (b[4] as u64) * 0x1_0000_0000 + (b[5] as u64) * 0x100_0000_0000 + (
        b[6] as u64) * 0x1_0000_0000_0000 + (b[7] as u64) * 0x100_0000_0000_0000)
    }

    /// A little-endian two's-complement `i64`.
    pub fn read_i64(&mut self) -> (r: Result<i64, AdsError>)
        ensures
            final(self)@.0 == old(self)@.0,
            match spec_read_i64(old(self)@.0, old(self)@.1) {
                Ok((v, q)) => r == Ok::<i64, AdsError>(v) && final(self)@.1 == q,
                Err(e) => r matches Err(x) && x@ == e,
            },
    {
        let u = self.read_u64()?;
        if u >= 0x8000_0000_0000_0000 {
            Ok((u as i128 - 0x1_0000_0000_0000_0000) as i64)
        } else {
            Ok(u as i64)
        }
    }
    /// A string: one length byte, then that many bytes of UTF-8.
    pub fn read_string(&mut self) -> (r: Result<String, AdsError>)
        ensures
            final(self)@.0 == old(self)@.0,
            match spec_read_string(old(self)@.0, old(self)@.1) {
                Ok((v, q)) => r matches Ok(x) && x@ == v && final(self)@.1 == q,
                Err(e) => r matches Err(x) && x@ == e && final(self)@.1 == string_error_position(
                    old(self)@.0,
                    old(self)@.1,
                ),
            },
    {
        let len = self.read_u8()? as usize;
        if len > MAX_STRING_LENGTH {
            return Err(
                AdsError::ParseError(
                    limit_message("String length ", len as u64, MAX_STRING_LENGTH as u64),
                ),
            );
        }
        let str_bytes = self.read_bytes(len)?;
        match utf8_to_string(str_bytes) {
            Ok(valid) => Ok(valid),
            Err(msg) => Err(AdsError::InvalidStringEncoding(msg)),
        }
    }

    /// A FILETIME: 100 ns steps since 1601-01-01, as a Unix timestamp.
    pub fn read_filetime(&mut self) -> (r: Result<Timestamp, AdsError>)
        ensures
            final(self)@.0 == old(self)@.0,
            match spec_read_filetime(old(self)@.0, old(self)@.1) {
                Ok((v, q)) => r matches Ok(x) && x@ == v && final(self)@.1 == q,
                Err(e) => r matches Err(x) && x@ == e,
            },
    {
        let filetime = self.read_u64()?;
        if filetime < FILETIME_EPOCH_DIFF {
            return Err(AdsError::InvalidTimestamp(String::from_str("Timestamp before Unix epoch")));
        }
        let unix_time_100ns = filetime - FILETIME_EPOCH_DIFF;
        let secs = unix_time_100ns / 10_000_000;
        let nanos = ((unix_time_100ns % 10_000_000) * 100) as u32;
        proof {
            reveal(filetime_instant);
        }
        match Timestamp::from_unix(secs as i64, nanos) {
            Some(t) => Ok(t),
            None => Err(AdsError::InvalidTimestamp(String::from_str("Invalid timestamp"))),
        }
    }

    fn read_enum_value(&mut self, underlying: i32) -> (r: Result<AdsValue, AdsError>)
        ensures
            final(self)@.0 == old(self)@.0,
            match spec_enum_value(old(self)@.0, old(self)@.1, underlying as int) {
                Ok((v, q)) => r matches Ok(x) && x@ == v && final(self)@.1 == q,
                Err(e) => r matches Err(x) && x@ == e,
            },
    {
        match underlying {
            1 | 9 => {
                let v = self.read_u8()?;
                Ok(AdsValue::UInt(v as u64))
            },
            2 | 10 => {
                let v = self.read_u16()?;
                Ok(AdsValue::UInt(v as u64))
            },
            3 | 11 => {
                let v = self.read_u32()?;
                Ok(AdsValue::UInt(v as u64))
            },
            15 => {
                let v = self.read_u64()?;
                Ok(AdsValue::UInt(v))
            },
            _ => Ok(AdsValue::Null),
        }
    }

    /// A typed value: a two-byte type code, then its payload. Unknown type
    /// codes give `Null` and read nothing more.
    pub fn read_value(&mut self) -> (r: Result<AdsValue, AdsError>)
        ensures
            final(self)@.0 == old(self)@.0,
            match spec_read_value(old(self)@.0, old(self)@.1) {
                Ok((v, q)) => r matches Ok(x) && x@ == v && final(self)@.1 == q,
                Err(e) => r matches Err(x) && x@ == e,
            },
            r is Ok ==> old(self)@.1 + 2 <= final(self)@.1 <= final(self)@.0.len(),
    {
        proof {
            reveal(spec_read_value);
            lemma_read_value_advances(self@.0, self@.1);
        }
        let val_type = self.read_i16()? as i32;
        match val_type {
            0 => Ok(AdsValue::Null),
            1 | 9 | 2 | 10 | 3 | 11 | 15 => self.read_enum_value(val_type),
            4 => {
                let bits = self.read_u32()?;
                if bits & 0x7f80_0000u32 != 0x7f80_0000u32 {
                    Ok(AdsValue::Real(bits))
                } else {
                    Ok(AdsValue::Null)
                }
            },
            5 => {
                let bits = self.read_u64()?;
                if bits & 0x7ff0_0000_0000_0000u64 != 0x7ff0_0000_0000_0000u64 {
                    Ok(AdsValue::LReal(bits))
                } else {
                    Ok(AdsValue::Null)
                }
            },
            6 => {
                let b = self.read_u8()?;
                let v: i64 = if b >= 0x80 {
                    b as i64 - 0x100
                } else {
                    b as i64
                };
                Ok(AdsValue::from_i64(v))
            },
            7 => {
                let v = self.read_i16()?;
                Ok(AdsValue::from_i64(v as i64))
            },
            8 => {
                let v = self.read_i32()?;
                Ok(AdsValue::from_i64(v as i64))
            },
            12 => {
                let s = self.read_string()?;
                Ok(AdsValue::Text(s))
            },
            13 => {
                let b = self.read_u8()?;
                Ok(AdsValue::Bool(b != 0))
            },
            17 => {
                let v = self.read_i64()?;
                Ok(AdsValue::from_i64(v))
            },
            20000 => {
                let ms = self.read_u32()?;
                Ok(AdsValue::Text(time_string(ms)))
            },
            20001 => {
                let ns100 = self.read_u64()?;
                Ok(AdsValue::Text(ltime_string(ns100)))
            },
            20004 => {
                let ms = self.read_u32()?;
                Ok(AdsValue::Text(tod_string(ms)))
            },
            20002 | 20003 => {
                let unix_secs = self.read_u32()? as i64;
                let in_range = utc_timestamp_in_range(unix_secs, 0);
                assert(in_range);
                Ok(AdsValue::Text(utc_format_text(unix_secs, ISO_DATE_TIME_PATTERN)))
            },
            20005 => {
                let underlying = self.read_i16()? as i32;
                self.read_enum_value(underlying)
            },
            20006 => {
                let char_count = self.read_u8()? as usize;
                let byte_count = char_count * 2;
                let raw = self.read_bytes(byte_count)?;
                let mut units: Vec<u16> = Vec::new();
                let mut i: usize = 0;
                while i < char_count
                    invariant
                        i <= char_count,
                        char_count <= 255,
                        raw@.len() == 2 * char_count,
                        units@ == utf16_units(raw@).take(i as int),
                    decreases char_count - i,
                {
                    units.push(raw[2 * i] as u16 + (raw[2 * i + 1] as u16) * 256);
                    i = i + 1;
                    assert(units@ =~= utf16_units(raw@).take(i as int));
                }
                assert(utf16_units(raw@).take(char_count as int) =~= utf16_units(raw@));
                Ok(AdsValue::Text(utf16_lossy_to_string(&units)))
            },
            _ => Ok(AdsValue::Null),
        }
    }
}


/// A string field: the byte length of the text's UTF-8 encoding, then that
/// encoding.
pub open spec fn string_field(s: Seq<char>) -> Seq<u8> {
    seq![encode_utf8(s).len() as u8] + encode_utf8(s)
}

/// Any text whose UTF-8 encoding fits in 255 bytes, written as a string
/// field, reads back as the same text, wherever the field stands and
/// whatever follows it.
pub proof fn law_string_field_roundtrip(s: Seq<char>, before: Seq<u8>, after: Seq<u8>)
    requires
        encode_utf8(s).len() <= 255,
    ensures
        spec_read_string(before + string_field(s) + after, before.len() as int) == Ok::<
            (Seq<char>, int),
            AdsErrorModel,
        >((s, (before.len() + string_field(s).len()) as int)),
{
    let e = encode_utf8(s);
    let d = before + string_field(s) + after;
    let b = before.len() as int;
    assert(d[b] == e.len() as u8);
    assert(d.subrange(b, b + 1) =~= seq![e.len() as u8]);
    assert(d.subrange(b + 1, b + 1 + e.len()) =~= e);
    encode_utf8_valid_utf8(s);
    encode_utf8_decode_utf8(s);
}

} // verus!
