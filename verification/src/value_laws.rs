//! Typed values written as the PLC writes them (a two-byte type code, then
//! the payload) read back as the numbers that were written.

use vstd::prelude::*;
use crate::errors::AdsErrorModel;
use vstd::utf8::encode_utf8;
use crate::reader::{
    law_string_field_roundtrip, string_field,
    le_bytes_u16, le_bytes_u32, le_bytes_u64, lemma_le16_roundtrip, lemma_le32_roundtrip,
    lemma_le64_roundtrip, spec_read_i16, spec_read_value, spec_value_payload, take_bytes,
};
use crate::values::AdsValueModel;

verus! {

/// The bytes of a typed value: the type code (little-endian), then the
/// payload.
pub open spec fn value_bytes(code: u16, payload: Seq<u8>) -> Seq<u8> {
    le_bytes_u16(code) + payload
}

/// A typed value with type code `code` and payload `payload`, standing at
/// `before.len()` with `after` behind it, is read at that place as the
/// payload read of `code`.
proof fn lemma_value_layout(before: Seq<u8>, code: u16, payload: Seq<u8>, after: Seq<u8>)
    requires
        code < 0x8000,
    ensures
        ({
            let d = before + value_bytes(code, payload) + after;
            let o = before.len() as int;
            &&& take_bytes(d, o, 2) == Ok::<(Seq<u8>, int), AdsErrorModel>(
                (le_bytes_u16(code), o + 2),
            )
            &&& payload.len() <= d.len() - (o + 2)
            &&& d.subrange(o + 2, o + 2 + payload.len()) == payload
        }),
{
    let d = before + value_bytes(code, payload) + after;
    let o = before.len() as int;
    assert(d.subrange(o, o + 2) =~= le_bytes_u16(code));
    assert(d.subrange(o + 2, o + 2 + payload.len()) =~= payload);
    lemma_le16_roundtrip(code);
}

/// Reading a typed value is reading its type code, then the payload of
/// that type.
proof fn lemma_read_value_at(d: Seq<u8>, p: int)
    ensures
        spec_read_value(d, p) == match spec_read_i16(d, p) {
            Err(e) => Err(e),
            Ok((t, q)) => spec_value_payload(d, q, t as int),
        },
{
    reveal(spec_read_value);
}

/// A byte (type code 1, BYTE, or 9, USINT) reads back as the number written.
pub proof fn law_byte_values_read_back(before: Seq<u8>, after: Seq<u8>, code: u16, x: u8)
    requires
        code == 1 || code == 9,
    ensures
        spec_read_value(before + value_bytes(code, seq![x]) + after, before.len() as int)
            == Ok::<(AdsValueModel, int), AdsErrorModel>(
            (AdsValueModel::UInt(x as u64), before.len() as int + 3),
        ),
{
    lemma_value_layout(before, code, seq![x], after);
    lemma_read_value_at(before + value_bytes(code, seq![x]) + after, before.len() as int);

}

/// A word (type code 2, WORD, or 10, UINT) reads back as the number written.
pub proof fn law_word_values_read_back(before: Seq<u8>, after: Seq<u8>, code: u16, x: u16)
    requires
        code == 2 || code == 10,
    ensures
        spec_read_value(before + value_bytes(code, le_bytes_u16(x)) + after, before.len() as int)
            == Ok::<(AdsValueModel, int), AdsErrorModel>(
            (AdsValueModel::UInt(x as u64), before.len() as int + 4),
        ),
{
    lemma_value_layout(before, code, le_bytes_u16(x), after);
    lemma_read_value_at(before + value_bytes(code, le_bytes_u16(x)) + after, before.len() as int);
    lemma_le16_roundtrip(x);
}

/// A double word (type code 3, DWORD, or 11, UDINT) reads back as the whole
/// 32-bit number written.
pub proof fn law_dword_values_read_back(before: Seq<u8>, after: Seq<u8>, code: u16, x: u32)
    requires
        code == 3 || code == 11,
    ensures
        spec_read_value(before + value_bytes(code, le_bytes_u32(x)) + after, before.len() as int)
            == Ok::<(AdsValueModel, int), AdsErrorModel>(
            (AdsValueModel::UInt(x as u64), before.len() as int + 6),
        ),
{
    lemma_value_layout(before, code, le_bytes_u32(x), after);
    lemma_read_value_at(before + value_bytes(code, le_bytes_u32(x)) + after, before.len() as int);
    lemma_le32_roundtrip(x);
}

/// A long word (type code 15, ULINT) reads back as the whole 64-bit number
/// written.
pub proof fn law_lword_values_read_back(before: Seq<u8>, after: Seq<u8>, code: u16, x: u64)
    requires
        code == 15,
    ensures
        spec_read_value(before + value_bytes(code, le_bytes_u64(x)) + after, before.len() as int)
            == Ok::<(AdsValueModel, int), AdsErrorModel>(
            (AdsValueModel::UInt(x), before.len() as int + 10),
        ),
{
    lemma_value_layout(before, code, le_bytes_u64(x), after);
    lemma_read_value_at(before + value_bytes(code, le_bytes_u64(x)) + after, before.len() as int);
    lemma_le64_roundtrip(x);
}

/// A signed byte (type code 6, SINT) reads back as the number written:
/// negative numbers as `Int`, the others as `UInt`.
pub proof fn law_sint_values_read_back(before: Seq<u8>, after: Seq<u8>, code: u16, x: i8)
    requires
        code == 6,
    ensures
        spec_read_value(before + value_bytes(code, seq![x as u8]) + after, before.len() as int)
            == Ok::<(AdsValueModel, int), AdsErrorModel>(
            (if x < 0 {
                AdsValueModel::Int(x as i64)
            } else {
                AdsValueModel::UInt(x as u64)
            }, before.len() as int + 3),
        ),
{
    lemma_value_layout(before, code, seq![x as u8], after);
    lemma_read_value_at(before + value_bytes(code, seq![x as u8]) + after, before.len() as int);
    assert(x < 0 ==> ((x as u8) as i16) == (x as i16) + 256) by (bit_vector);
    assert(x >= 0 ==> ((x as u8) as i16) == x as i16) by (bit_vector);
}

/// A 16-bit integer (type code 7, INT) reads back as the number written:
/// negative numbers as `Int`, the others as `UInt`.
pub proof fn law_int_values_read_back(before: Seq<u8>, after: Seq<u8>, code: u16, x: i16)
    requires
        code == 7,
    ensures
        spec_read_value(before + value_bytes(code, le_bytes_u16(x as u16)) + after, before.len() as int)
            == Ok::<(AdsValueModel, int), AdsErrorModel>(
            (if x < 0 {
                AdsValueModel::Int(x as i64)
            } else {
                AdsValueModel::UInt(x as u64)
            }, before.len() as int + 4),
        ),
{
    lemma_value_layout(before, code, le_bytes_u16(x as u16), after);
    lemma_read_value_at(before + value_bytes(code, le_bytes_u16(x as u16)) + after, before.len() as int);
    lemma_le16_roundtrip(x as u16);
    assert(x < 0 ==> ((x as u16) as i32) == (x as i32) + 0x1_0000) by (bit_vector);
    assert(x >= 0 ==> ((x as u16) as i32) == x as i32) by (bit_vector);
}

/// A 32-bit integer (type code 8, DINT) reads back as the number written:
/// negative numbers as `Int`, the others as `UInt`.
pub proof fn law_dint_values_read_back(before: Seq<u8>, after: Seq<u8>, code: u16, x: i32)
    requires
        code == 8,
    ensures
        spec_read_value(before + value_bytes(code, le_bytes_u32(x as u32)) + after, before.len() as int)
            == Ok::<(AdsValueModel, int), AdsErrorModel>(
            (if x < 0 {
                AdsValueModel::Int(x as i64)
            } else {
                AdsValueModel::UInt(x as u64)
            }, before.len() as int + 6),
        ),
{
    lemma_value_layout(before, code, le_bytes_u32(x as u32), after);
    lemma_read_value_at(before + value_bytes(code, le_bytes_u32(x as u32)) + after, before.len() as int);
    lemma_le32_roundtrip(x as u32);
    assert(x < 0 ==> ((x as u32) as i64) == (x as i64) + 0x1_0000_0000) by (bit_vector);
    assert(x >= 0 ==> ((x as u32) as i64) == x as i64) by (bit_vector);
}

/// A 64-bit integer (type code 17, LINT) reads back as the number written:
/// negative numbers as `Int`, the others as `UInt`.
pub proof fn law_lint_values_read_back(before: Seq<u8>, after: Seq<u8>, code: u16, x: i64)
    requires
        code == 17,
    ensures
        spec_read_value(before + value_bytes(code, le_bytes_u64(x as u64)) + after, before.len() as int)
            == Ok::<(AdsValueModel, int), AdsErrorModel>(
            (if x < 0 {
                AdsValueModel::Int(x as i64)
            } else {
                AdsValueModel::UInt(x as u64)
            }, before.len() as int + 10),
        ),
{
    lemma_value_layout(before, code, le_bytes_u64(x as u64), after);
    lemma_read_value_at(before + value_bytes(code, le_bytes_u64(x as u64)) + after, before.len() as int);
    lemma_le64_roundtrip(x as u64);
    assert(x < 0 ==> ((x as u64) as i128) == (x as i128) + 0x1_0000_0000_0000_0000) by (bit_vector);
    assert(x >= 0 ==> ((x as u64) as i128) == x as i128) by (bit_vector);
}

/// A boolean (type code 13, BOOL) reads back as true exactly when its byte
/// is not zero.
pub proof fn law_bool_values_read_back(before: Seq<u8>, after: Seq<u8>, code: u16, b: u8)
    requires
        code == 13,
    ensures
        spec_read_value(before + value_bytes(code, seq![b]) + after, before.len() as int)
            == Ok::<(AdsValueModel, int), AdsErrorModel>(
            (AdsValueModel::Bool(b != 0), before.len() as int + 3),
        ),
{
    lemma_value_layout(before, code, seq![b], after);
    lemma_read_value_at(before + value_bytes(code, seq![b]) + after, before.len() as int);

}

/// An ENUM (type code 20005) whose underlying type is a byte (1 or 9) reads back as
/// the number written.
pub proof fn law_enum_byte_values_read_back(before: Seq<u8>, after: Seq<u8>, code: u16, u: u16, x: u8)
    requires
        code == 20005 && (u == 1 || u == 9),
    ensures
        spec_read_value(before + value_bytes(code, le_bytes_u16(u) + seq![x]) + after, before.len() as int)
            == Ok::<(AdsValueModel, int), AdsErrorModel>(
            (AdsValueModel::UInt(x as u64), before.len() as int + 5),
        ),
{
    lemma_value_layout(before, code, le_bytes_u16(u) + seq![x], after);
    lemma_read_value_at(before + value_bytes(code, le_bytes_u16(u) + seq![x]) + after, before.len() as int);
    lemma_le16_roundtrip(u);
    let d = before + value_bytes(code, le_bytes_u16(u) + seq![x]) + after;
    let o = before.len() as int;
    assert(d.subrange(o + 2, o + 4) =~= le_bytes_u16(u));
    assert(d.subrange(o + 4, o + 5) =~= seq![x]);
}

/// An ENUM (type code 20005) whose underlying type is a word (2 or 10) reads back as
/// the number written.
pub proof fn law_enum_word_values_read_back(before: Seq<u8>, after: Seq<u8>, code: u16, u: u16, x: u16)
    requires
        code == 20005 && (u == 2 || u == 10),
    ensures
        spec_read_value(before + value_bytes(code, le_bytes_u16(u) + le_bytes_u16(x)) + after, before.len() as int)
            == Ok::<(AdsValueModel, int), AdsErrorModel>(
            (AdsValueModel::UInt(x as u64), before.len() as int + 6),
        ),
{
    lemma_value_layout(before, code, le_bytes_u16(u) + le_bytes_u16(x), after);
    lemma_read_value_at(before + value_bytes(code, le_bytes_u16(u) + le_bytes_u16(x)) + after, before.len() as int);
    lemma_le16_roundtrip(u);
    lemma_le16_roundtrip(x);
    let d = before + value_bytes(code, le_bytes_u16(u) + le_bytes_u16(x)) + after;
    let o = before.len() as int;
    assert(d.subrange(o + 2, o + 4) =~= le_bytes_u16(u));
    assert(d.subrange(o + 4, o + 6) =~= le_bytes_u16(x));
}

/// An ENUM (type code 20005) whose underlying type is a double word (3 or 11) reads back as
/// the number written.
pub proof fn law_enum_dword_values_read_back(before: Seq<u8>, after: Seq<u8>, code: u16, u: u16, x: u32)
    requires
        code == 20005 && (u == 3 || u == 11),
    ensures
        spec_read_value(before + value_bytes(code, le_bytes_u16(u) + le_bytes_u32(x)) + after, before.len() as int)
            == Ok::<(AdsValueModel, int), AdsErrorModel>(
            (AdsValueModel::UInt(x as u64), before.len() as int + 8),
        ),
{
    lemma_value_layout(before, code, le_bytes_u16(u) + le_bytes_u32(x), after);
    lemma_read_value_at(before + value_bytes(code, le_bytes_u16(u) + le_bytes_u32(x)) + after, before.len() as int);
    lemma_le16_roundtrip(u);
    lemma_le32_roundtrip(x);
    let d = before + value_bytes(code, le_bytes_u16(u) + le_bytes_u32(x)) + after;
    let o = before.len() as int;
    assert(d.subrange(o + 2, o + 4) =~= le_bytes_u16(u));
    assert(d.subrange(o + 4, o + 8) =~= le_bytes_u32(x));
}

/// An ENUM (type code 20005) whose underlying type is a long word (15) reads back as
/// the number written.
pub proof fn law_enum_lword_values_read_back(before: Seq<u8>, after: Seq<u8>, code: u16, u: u16, x: u64)
    requires
        code == 20005 && u == 15,
    ensures
        spec_read_value(before + value_bytes(code, le_bytes_u16(u) + le_bytes_u64(x)) + after, before.len() as int)
            == Ok::<(AdsValueModel, int), AdsErrorModel>(
            (AdsValueModel::UInt(x), before.len() as int + 12),
        ),
{
    lemma_value_layout(before, code, le_bytes_u16(u) + le_bytes_u64(x), after);
    lemma_read_value_at(before + value_bytes(code, le_bytes_u16(u) + le_bytes_u64(x)) + after, before.len() as int);
    lemma_le16_roundtrip(u);
    lemma_le64_roundtrip(x);
    let d = before + value_bytes(code, le_bytes_u16(u) + le_bytes_u64(x)) + after;
    let o = before.len() as int;
    assert(d.subrange(o + 2, o + 4) =~= le_bytes_u16(u));
    assert(d.subrange(o + 4, o + 12) =~= le_bytes_u64(x));
}

/// A REAL (type code 4) reads back as its bit pattern when it is a finite
/// number (exponent bits not all set), and as null otherwise.
pub proof fn law_real_values_read_back(before: Seq<u8>, after: Seq<u8>, code: u16, bits: u32)
    requires
        code == 4,
    ensures
        spec_read_value(before + value_bytes(code, le_bytes_u32(bits)) + after, before.len() as int)
            == Ok::<(AdsValueModel, int), AdsErrorModel>(
            (
                if bits & 0x7f80_0000u32 != 0x7f80_0000u32 {
                    AdsValueModel::Real(bits)
                } else {
                    AdsValueModel::Null
                },
                before.len() as int + 6,
            ),
        ),
{
    lemma_value_layout(before, code, le_bytes_u32(bits), after);
    lemma_read_value_at(before + value_bytes(code, le_bytes_u32(bits)) + after, before.len() as int);
    lemma_le32_roundtrip(bits);
}

/// An LREAL (type code 5) reads back as its bit pattern when it is a finite
/// number (exponent bits not all set), and as null otherwise.
pub proof fn law_lreal_values_read_back(before: Seq<u8>, after: Seq<u8>, code: u16, bits: u64)
    requires
        code == 5,
    ensures
        spec_read_value(before + value_bytes(code, le_bytes_u64(bits)) + after, before.len() as int)
            == Ok::<(AdsValueModel, int), AdsErrorModel>(
            (
                if bits & 0x7ff0_0000_0000_0000u64 != 0x7ff0_0000_0000_0000u64 {
                    AdsValueModel::LReal(bits)
                } else {
                    AdsValueModel::Null
                },
                before.len() as int + 10,
            ),
        ),
{
    lemma_value_layout(before, code, le_bytes_u64(bits), after);
    lemma_read_value_at(before + value_bytes(code, le_bytes_u64(bits)) + after, before.len() as int);
    lemma_le64_roundtrip(bits);
}

/// A STRING value (type code 12) of at most 255 bytes of UTF-8 reads back as
/// the same text.
pub proof fn law_string_values_read_back(
    before: Seq<u8>,
    after: Seq<u8>,
    code: u16,
    text: Seq<char>,
)
    requires
        code == 12,
        encode_utf8(text).len() <= 255,
    ensures
        spec_read_value(before + value_bytes(code, string_field(text)) + after, before.len() as int)
            == Ok::<(AdsValueModel, int), AdsErrorModel>(
            (AdsValueModel::Text(text), (before.len() + 2 + string_field(text).len()) as int),
        ),
{
    let d = before + value_bytes(code, string_field(text)) + after;
    let o = before.len() as int;
    lemma_value_layout(before, code, string_field(text), after);
    lemma_read_value_at(d, o);
    assert(d =~= (before + le_bytes_u16(code)) + string_field(text) + after);
    law_string_field_roundtrip(text, before + le_bytes_u16(code), after);
}

} // verus!
