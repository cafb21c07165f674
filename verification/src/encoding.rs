//! The byte form in which the PLC writes a log entry, and the law that
//! reading it back gives the entry that was written.

use vstd::prelude::*;
use vstd::utf8::encode_utf8;
use crate::errors::AdsErrorModel;
use crate::level::{level_number, lemma_level_number_roundtrip, LogLevel};
use crate::parser::{
    spec_parse, spec_parse_app, spec_parse_entry, spec_parse_header, spec_parse_intro,
    spec_parse_items, spec_parse_task, AdsLogEntryModel, AdsProtocolVersion, HeaderModel,
};
use crate::values::AdsValueModel;
use crate::reader::{
    filetime_instant, law_string_field_roundtrip, le_bytes_u16, le_bytes_u32, le_bytes_u64,
    lemma_le16_roundtrip, lemma_le32_roundtrip, lemma_le64_roundtrip, spec_read_string,
    string_field, twos_complement, FILETIME_EPOCH_DIFF,
};

verus! {

/// The bytes of an entry with no arguments or context, as the PLC writes
/// it: version 1, message, logger, level (two bytes), the two FILETIMEs,
/// task index (the bits of an `i32`), task name, cycle counter, application
/// and project names, online-change count, end marker.
#[verifier::opaque]
pub open spec fn entry_bytes(
    message: Seq<char>,
    logger: Seq<char>,
    level: LogLevel,
    plc_ft: u64,
    clock_ft: u64,
    task_index_bits: u32,
    task_name: Seq<char>,
    cycle: u32,
    app: Seq<char>,
    project: Seq<char>,
    online: u32,
) -> Seq<u8> {
    seq![1u8] + string_field(message) + string_field(logger) + le_bytes_u16(
        level_number(level) as u16,
    ) + le_bytes_u64(plc_ft) + le_bytes_u64(clock_ft) + le_bytes_u32(task_index_bits)
        + string_field(task_name) + le_bytes_u32(cycle) + string_field(app) + string_field(project)
        + le_bytes_u32(online) + seq![0u8]
}

/// A prefix `a + p` of `d` tells the bytes of `d` at `p`'s place and its
/// shorter prefix `a`.
proof fn lemma_piece(d: Seq<u8>, a: Seq<u8>, p: Seq<u8>)
    requires
        d.len() >= a.len() + p.len(),
        d.take((a.len() + p.len()) as int) == a + p,
    ensures
        d.subrange(a.len() as int, (a.len() + p.len()) as int) == p,
        d.take(a.len() as int) == a,
{
    let n = (a.len() + p.len()) as int;
    assert forall|j: int| 0 <= j < p.len() implies d.subrange(a.len() as int, n)[j] == p[j] by {
        assert(d.subrange(a.len() as int, n)[j] == d[a.len() + j]);
        assert(d.take(n)[a.len() + j] == d[a.len() + j]);
        assert((a + p)[a.len() + j] == p[j]);
    }
    assert(d.subrange(a.len() as int, n) =~= p);
    assert forall|j: int| 0 <= j < a.len() implies d.take(a.len() as int)[j] == a[j] by {
        assert(d.take(n)[j] == d[j]);
        assert((a + p)[j] == a[j]);
    }
    assert(d.take(a.len() as int) =~= a);
}

/// A string field found at `o` in `d` reads back as its text.
proof fn lemma_string_at(d: Seq<u8>, o: int, s: Seq<char>)
    requires
        0 <= o,
        o + string_field(s).len() <= d.len(),
        d.subrange(o, o + string_field(s).len()) == string_field(s),
        encode_utf8(s).len() <= 255,
    ensures
        spec_read_string(d, o) == Ok::<(Seq<char>, int), AdsErrorModel>(
            (s, o + string_field(s).len()),
        ),
{
    let f = string_field(s);
    assert(d =~= d.take(o) + f + d.skip(o + f.len()));
    law_string_field_roundtrip(s, d.take(o), d.skip(o + f.len()));
}

/// The length of a string field.
pub open spec fn field_len(s: Seq<char>) -> int {
    string_field(s).len() as int
}

proof fn lemma_intro_at(d: Seq<u8>, message: Seq<char>, logger: Seq<char>, level: LogLevel)
    requires
        encode_utf8(message).len() <= 255,
        encode_utf8(logger).len() <= 255,
        d.len() >= 1 + field_len(message) + field_len(logger) + 2,
        d.subrange(0, 1) == seq![1u8],
        d.subrange(1, 1 + field_len(message)) == string_field(message),
        d.subrange(
            1 + field_len(message),
            1 + field_len(message) + field_len(logger),
        ) == string_field(logger),
        d.subrange(
            1 + field_len(message) + field_len(logger),
            1 + field_len(message) + field_len(logger) + 2,
        ) == le_bytes_u16(level_number(level) as u16),
    ensures
        spec_parse_intro(d, 0) == Ok::<
            ((AdsProtocolVersion, Seq<char>, Seq<char>, LogLevel), int),
            AdsErrorModel,
        >(
            (
                (AdsProtocolVersion::V1, message, logger, level),
                1 + field_len(message) + field_len(logger) + 2,
            ),
        ),
{
    let o2 = 1 + field_len(message);
    let o3 = o2 + field_len(logger);
    assert(d[0] == d.subrange(0, 1)[0]);
    lemma_string_at(d, 1, message);
    lemma_string_at(d, o2, logger);
    lemma_level_number_roundtrip(level);
    lemma_le16_roundtrip(level_number(level) as u16);
}

proof fn lemma_task_at(
    d: Seq<u8>,
    o: int,
    plc_ft: u64,
    clock_ft: u64,
    bits: u32,
    task_name: Seq<char>,
    cycle: u32,
)
    requires
        0 <= o,
        encode_utf8(task_name).len() <= 255,
        plc_ft >= FILETIME_EPOCH_DIFF,
        clock_ft >= FILETIME_EPOCH_DIFF,
        d.len() >= o + 20 + string_field(task_name).len() + 4,
        d.subrange(o, o + 8) == le_bytes_u64(plc_ft),
        d.subrange(o + 8, o + 16) == le_bytes_u64(clock_ft),
        d.subrange(o + 16, o + 20) == le_bytes_u32(bits),
        d.subrange(o + 20, o + 20 + string_field(task_name).len()) == string_field(task_name),
        d.subrange(
            o + 20 + string_field(task_name).len(),
            o + 24 + string_field(task_name).len(),
        ) == le_bytes_u32(cycle),
    ensures
        spec_parse_task(d, o) == Ok::<
            (((i64, u32), (i64, u32), i32, Seq<char>, u32), int),
            AdsErrorModel,
        >(
            (
                (
                    filetime_instant(plc_ft),
                    filetime_instant(clock_ft),
                    twos_complement(bits as nat, 0x8000_0000) as i32,
                    task_name,
                    cycle,
                ),
                o + 24 + string_field(task_name).len(),
            ),
        ),
{
    lemma_le64_roundtrip(plc_ft);
    lemma_le64_roundtrip(clock_ft);
    lemma_le32_roundtrip(bits);
    lemma_string_at(d, o + 20, task_name);
    lemma_le32_roundtrip(cycle);
}

proof fn lemma_app_at(d: Seq<u8>, o: int, app: Seq<char>, project: Seq<char>, online: u32)
    requires
        0 <= o,
        encode_utf8(app).len() <= 255,
        encode_utf8(project).len() <= 255,
        d.len() >= o + string_field(app).len() + string_field(project).len() + 4,
        d.subrange(o, o + string_field(app).len()) == string_field(app),
        d.subrange(
            o + string_field(app).len(),
            o + string_field(app).len() + string_field(project).len(),
        ) == string_field(project),
        d.subrange(
            o + string_field(app).len() + string_field(project).len(),
            o + string_field(app).len() + string_field(project).len() + 4,
        ) == le_bytes_u32(online),
    ensures
        spec_parse_app(d, o) == Ok::<((Seq<char>, Seq<char>, u32), int), AdsErrorModel>(
            (
                (app, project, online),
                o + string_field(app).len() + string_field(project).len() + 4,
            ),
        ),
{
    lemma_string_at(d, o, app);
    lemma_string_at(d, o + string_field(app).len(), project);
    lemma_le32_roundtrip(online);
}

/// Where each field of `entry_bytes` lies.
#[verifier::spinoff_prover]
#[verifier::rlimit(70)]
proof fn lemma_entry_pieces(
    message: Seq<char>,
    logger: Seq<char>,
    level: LogLevel,
    plc_ft: u64,
    clock_ft: u64,
    task_index_bits: u32,
    task_name: Seq<char>,
    cycle: u32,
    app: Seq<char>,
    project: Seq<char>,
    online: u32,
)
    ensures
        ({
            let d = entry_bytes(
            message,
            logger,
            level,
            plc_ft,
            clock_ft,
            task_index_bits,
            task_name,
            cycle,
            app,
            project,
            online,
        );
            let o_lvl = 1 + field_len(message) + field_len(logger);
            let o_tn = o_lvl + 22;
            let o_app = o_tn + field_len(task_name) + 4;
            let o_onl = o_app + field_len(app) + field_len(project);
            &&& d.len() == o_onl + 5
            &&& d[o_onl + 4] == 0u8
            &&& d.subrange(0, 1) == seq![1u8]
            &&& d.subrange(1, 1 + field_len(message)) == string_field(message)
            &&& d.subrange(1 + field_len(message), o_lvl) == string_field(logger)
            &&& d.subrange(o_lvl, o_lvl + 2) == le_bytes_u16(level_number(level) as u16)
            &&& d.subrange(o_lvl + 2, o_lvl + 10) == le_bytes_u64(plc_ft)
            &&& d.subrange(o_lvl + 10, o_lvl + 18) == le_bytes_u64(clock_ft)
            &&& d.subrange(o_lvl + 18, o_lvl + 22) == le_bytes_u32(task_index_bits)
            &&& d.subrange(o_tn, o_tn + field_len(task_name)) == string_field(task_name)
            &&& d.subrange(o_tn + field_len(task_name), o_app) == le_bytes_u32(cycle)
            &&& d.subrange(o_app, o_app + field_len(app)) == string_field(app)
            &&& d.subrange(o_app + field_len(app), o_onl) == string_field(project)
            &&& d.subrange(o_onl, o_onl + 4) == le_bytes_u32(online)
        }),
{
    reveal(entry_bytes);
    let p0 = seq![1u8];
    let p1 = string_field(message);
    let p2 = string_field(logger);
    let p3 = le_bytes_u16(level_number(level) as u16);
    let p4 = le_bytes_u64(plc_ft);
    let p5 = le_bytes_u64(clock_ft);
    let p6 = le_bytes_u32(task_index_bits);
    let p7 = string_field(task_name);
    let p8 = le_bytes_u32(cycle);
    let p9 = string_field(app);
    let p10 = string_field(project);
    let p11 = le_bytes_u32(online);
    let a1 = p0;
    let a2 = a1 + p1;
    let a3 = a2 + p2;
    let a4 = a3 + p3;
    let a5 = a4 + p4;
    let a6 = a5 + p5;
    let a7 = a6 + p6;
    let a8 = a7 + p7;
    let a9 = a8 + p8;
    let a10 = a9 + p9;
    let a11 = a10 + p10;
    let a12 = a11 + p11;
    let d = a12 + seq![0u8];
    assert(d.take(a12.len() as int) =~= a12);
    lemma_piece(d, a11, p11);
    lemma_piece(d, a10, p10);
    lemma_piece(d, a9, p9);
    lemma_piece(d, a8, p8);
    lemma_piece(d, a7, p7);
    lemma_piece(d, a6, p6);
    lemma_piece(d, a5, p5);
    lemma_piece(d, a4, p4);
    lemma_piece(d, a3, p3);
    lemma_piece(d, a2, p2);
    lemma_piece(d, a1, p1);
    assert(d.take(1) =~= d.subrange(0, 1));
}

/// An entry written by the PLC with no arguments or context reads back with
/// exactly the fields it was written with: any message, logger and names
/// (each at most 255 bytes of UTF-8) come back character for character.
pub proof fn law_entry_roundtrip(
    message: Seq<char>,
    logger: Seq<char>,
    level: LogLevel,
    plc_ft: u64,
    clock_ft: u64,
    task_index_bits: u32,
    task_name: Seq<char>,
    cycle: u32,
    app: Seq<char>,
    project: Seq<char>,
    online: u32,
)
    requires
        encode_utf8(message).len() <= 255,
        encode_utf8(logger).len() <= 255,
        encode_utf8(task_name).len() <= 255,
        encode_utf8(app).len() <= 255,
        encode_utf8(project).len() <= 255,
        plc_ft >= FILETIME_EPOCH_DIFF,
        clock_ft >= FILETIME_EPOCH_DIFF,
    ensures
        spec_parse(
            entry_bytes(
            message,
            logger,
            level,
            plc_ft,
            clock_ft,
            task_index_bits,
            task_name,
            cycle,
            app,
            project,
            online,
        ),
        ) == Ok::<AdsLogEntryModel, AdsErrorModel>(
            AdsLogEntryModel {
                header: HeaderModel {
                    version: AdsProtocolVersion::V1,
                    message,
                    logger,
                    level,
                    plc_timestamp: filetime_instant(plc_ft),
                    clock_timestamp: filetime_instant(clock_ft),
                    task_index: twos_complement(task_index_bits as nat, 0x8000_0000) as i32,
                    task_name,
                    task_cycle_counter: cycle,
                    app_name: app,
                    project_name: project,
                    online_change_count: online,
                },
                arguments: seq![],
                context: seq![],
            },
        ),
{
    reveal(spec_parse_entry);
    let d = entry_bytes(
            message,
            logger,
            level,
            plc_ft,
            clock_ft,
            task_index_bits,
            task_name,
            cycle,
            app,
            project,
            online,
        );
    lemma_entry_pieces(
        message,
        logger,
        level,
        plc_ft,
        clock_ft,
        task_index_bits,
        task_name,
        cycle,
        app,
        project,
        online,
    );
    let o_lvl = 1 + field_len(message) + field_len(logger);
    let o_tn = o_lvl + 22;
    let o_app = o_tn + field_len(task_name) + 4;
    let o_onl = o_app + field_len(app) + field_len(project);
    lemma_intro_at(d, message, logger, level);
    lemma_task_at(d, o_lvl + 2, plc_ft, clock_ft, task_index_bits, task_name, cycle);
    lemma_app_at(d, o_app, app, project, online);
    let end = o_onl + 4;
    assert(spec_parse_items(d, end, seq![], seq![]) == Ok::<
        (Seq<(usize, AdsValueModel)>, Seq<(Seq<char>, AdsValueModel)>, int),
        AdsErrorModel,
    >((seq![], seq![], end + 1)));
}

} // verus!
