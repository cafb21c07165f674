//! The ADS log-entry format and its parser.
//!
//! An entry is: a version byte; message and logger strings; a two-byte level
//! (its low byte is the level number); two FILETIME timestamps; task index
//! (i32), task name, task cycle counter (u32); application and project names;
//! online-change count (u32); then items up to the end of the data or an end
//! marker (0 or 255). An item of type 1 is an argument (index byte, value), of
//! type 2 a context variable (scope byte, name, value); other item types are
//! skipped. Strings carry a one-byte length.

use vstd::prelude::*;
use crate::errors::{limit_message, limit_text, AdsError, AdsErrorModel};
use crate::level::{level_of_number, LogLevel};
use crate::maps::{assoc_insert, ArgMap, NamedMap};
use crate::reader::{
    le_u16, lemma_read_string_advances, lemma_read_value_advances, spec_read_filetime,
    spec_read_i32, spec_read_string, spec_read_u32, spec_read_u8, spec_read_value, take_bytes,
    BytesReader,
};
use crate::text::{append_chars, chars_to_string, decimal, str_to_chars, u64_to_decimal};
use crate::timestamp::Timestamp;
use crate::values::{AdsValue, AdsValueModel};

verus! {

/// Most arguments one entry may carry.
pub const MAX_ARGUMENTS: usize = 32;

/// Most context variables one entry may carry.
pub const MAX_CONTEXT_VARS: usize = 64;

/// Largest buffer the parser accepts.
pub const MAX_MESSAGE_SIZE: usize = 1_048_576;

/// Protocol versions of the log-entry format.
#[derive(Debug, Clone, Copy, PartialEq, Eq, Structural)]
pub enum AdsProtocolVersion {
    V1,
}

/// The version with number `b`, if known.
pub open spec fn version_of_number(b: u8) -> Option<AdsProtocolVersion> {
    if b == 1 {
        Some(AdsProtocolVersion::V1)
    } else {
        None
    }
}

impl AdsProtocolVersion {
    /// The version with number `b`; only 1 is known.
    pub fn from_u8(b: u8) -> (r: Option<AdsProtocolVersion>)
        ensures
            r == version_of_number(b),
    {
        if b == 1 {
            Some(AdsProtocolVersion::V1)
        } else {
            None
        }
    }
}

/// One log entry as the PLC wrote it.
pub struct AdsLogEntry {
    pub version: AdsProtocolVersion,
    pub message: String,
    pub logger: String,
    pub level: LogLevel,
    pub plc_timestamp: Timestamp,
    pub clock_timestamp: Timestamp,
    pub task_index: i32,
    pub task_name: String,
    pub task_cycle_counter: u32,
    pub app_name: String,
    pub project_name: String,
    pub online_change_count: u32,
    pub arguments: ArgMap<AdsValue>,
    pub context: NamedMap<AdsValue>,
}

/// The fixed part of an entry, before its items.
pub struct HeaderModel {
    pub version: AdsProtocolVersion,
    pub message: Seq<char>,
    pub logger: Seq<char>,
    pub level: LogLevel,
    pub plc_timestamp: (i64, u32),
    pub clock_timestamp: (i64, u32),
    pub task_index: i32,
    pub task_name: Seq<char>,
    pub task_cycle_counter: u32,
    pub app_name: Seq<char>,
    pub project_name: Seq<char>,
    pub online_change_count: u32,
}

/// The abstract form of an entry.
pub struct AdsLogEntryModel {
    pub header: HeaderModel,
    pub arguments: Seq<(usize, AdsValueModel)>,
    pub context: Seq<(Seq<char>, AdsValueModel)>,
}

impl View for AdsLogEntry {
    type V = AdsLogEntryModel;

    open spec fn view(&self) -> AdsLogEntryModel {
        AdsLogEntryModel {
            header: HeaderModel {
                version: self.version,
                message: self.message@,
                logger: self.logger@,
                level: self.level,
                plc_timestamp: self.plc_timestamp@,
                clock_timestamp: self.clock_timestamp@,
                task_index: self.task_index,
                task_name: self.task_name@,
                task_cycle_counter: self.task_cycle_counter,
                app_name: self.app_name@,
                project_name: self.project_name@,
                online_change_count: self.online_change_count,
            },
            arguments: self.arguments@,
            context: self.context@,
        }
    }
}

/// "Invalid log level: <n>".
pub open spec fn invalid_level_text(n: nat) -> Seq<char> {
    "Invalid log level: "@ + decimal(n)
}

/// The key under which a context variable is stored: "scope_<scope>_<name>".
pub open spec fn context_key(scope: u8, name: Seq<char>) -> Seq<char> {
    "scope_"@ + decimal(scope as nat) + "_"@ + name
}

/// Version, message, logger and level, and the position after them.
pub open spec fn spec_parse_intro(d: Seq<u8>, p: int) -> Result<
    ((AdsProtocolVersion, Seq<char>, Seq<char>, LogLevel), int),
    AdsErrorModel,
> {
    match spec_read_u8(d, p) {
        Err(e) => Err(e),
        Ok((vb, p1)) => match version_of_number(vb) {
            None => Err(AdsErrorModel::InvalidVersion(vb)),
            Some(version) => match spec_read_string(d, p1) {
                Err(e) => Err(e),
                Ok((message, p2)) => match spec_read_string(d, p2) {
                    Err(e) => Err(e),
                    Ok((logger, p3)) => match take_bytes(d, p3, 2) {
                        Err(e) => Err(e),
                        Ok((lb, p4)) => match level_of_number(lb[0]) {
                            None => Err(AdsErrorModel::ParseError(invalid_level_text(le_u16(lb)))),
                            Some(level) => Ok(((version, message, logger, level), p4)),
                        },
                    },
                },
            },
        },
    }
}

/// The two timestamps, task index, task name and task cycle counter.
pub open spec fn spec_parse_task(d: Seq<u8>, p: int) -> Result<
    (((i64, u32), (i64, u32), i32, Seq<char>, u32), int),
    AdsErrorModel,
> {
    match spec_read_filetime(d, p) {
        Err(e) => Err(e),
        Ok((plc, p1)) => match spec_read_filetime(d, p1) {
            Err(e) => Err(e),
            Ok((clock, p2)) => match spec_read_i32(d, p2) {
                Err(e) => Err(e),
                Ok((task_index, p3)) => match spec_read_string(d, p3) {
                    Err(e) => Err(e),
                    Ok((task_name, p4)) => match spec_read_u32(d, p4) {
                        Err(e) => Err(e),
                        Ok((cycle, p5)) => Ok(((plc, clock, task_index, task_name, cycle), p5)),
                    },
                },
            },
        },
    }
}

/// Application name, project name and online-change count.
pub open spec fn spec_parse_app(d: Seq<u8>, p: int) -> Result<
    ((Seq<char>, Seq<char>, u32), int),
    AdsErrorModel,
> {
    match spec_read_string(d, p) {
        Err(e) => Err(e),
        Ok((app, p1)) => match spec_read_string(d, p1) {
            Err(e) => Err(e),
            Ok((project, p2)) => match spec_read_u32(d, p2) {
                Err(e) => Err(e),
                Ok((online, p3)) => Ok(((app, project, online), p3)),
            },
        },
    }
}

/// The fixed part of an entry starting at `p`, and the position after it.
pub open spec fn spec_parse_header(d: Seq<u8>, p: int) -> Result<(HeaderModel, int), AdsErrorModel> {
    match spec_parse_intro(d, p) {
        Err(e) => Err(e),
        Ok(((version, message, logger, level), p1)) => match spec_parse_task(d, p1) {
            Err(e) => Err(e),
            Ok(((plc, clock, task_index, task_name, cycle), p2)) => match spec_parse_app(d, p2) {
                Err(e) => Err(e),
                Ok(((app, project, online), p3)) => Ok(
                    (
                        HeaderModel {
                            version,
                            message,
                            logger,
                            level,
                            plc_timestamp: plc,
                            clock_timestamp: clock,
                            task_index,
                            task_name,
                            task_cycle_counter: cycle,
                            app_name: app,
                            project_name: project,
                            online_change_count: online,
                        },
                        p3,
                    ),
                ),
            },
        },
    }
}

/// The items of an entry from `p` on, added to `args` and `ctx`; gives the
/// final arguments, context and position, or the first error.
pub open spec fn spec_parse_items(
    d: Seq<u8>,
    p: int,
    args: Seq<(usize, AdsValueModel)>,
    ctx: Seq<(Seq<char>, AdsValueModel)>,
) -> Result<(Seq<(usize, AdsValueModel)>, Seq<(Seq<char>, AdsValueModel)>, int), AdsErrorModel>
    decreases d.len() - p,
{
    if p >= d.len() {
        Ok((args, ctx, p))
    } else {
        let type_id = d[p];
        let q = p + 1;
        if type_id == 0 || type_id == 255 {
            Ok((args, ctx, q))
        } else if type_id == 1 {
            if args.len() >= MAX_ARGUMENTS {
                Err(
                    AdsErrorModel::ParseError(
                        limit_text("Too many arguments: "@, args.len() + 1, MAX_ARGUMENTS as nat),
                    ),
                )
            } else {
                match spec_read_u8(d, q) {
                    Err(e) => Err(e),
                    Ok((index, q2)) => match spec_read_value(d, q2) {
                        Err(e) => Err(e),
                        Ok((v, q3)) => {
                            proof {
                                lemma_read_value_advances(d, q2);
                            }
                            spec_parse_items(d, q3, assoc_insert(args, index as usize, v), ctx)
                        },
                    },
                }
            }
        } else if type_id == 2 {
            if ctx.len() >= MAX_CONTEXT_VARS {
                Err(
                    AdsErrorModel::ParseError(
                        limit_text(
                            "Too many context variables: "@,
                            ctx.len() + 1,
                            MAX_CONTEXT_VARS as nat,
                        ),
                    ),
                )
            } else {
                match spec_read_u8(d, q) {
                    Err(e) => Err(e),
                    Ok((scope, q2)) => match spec_read_string(d, q2) {
                        Err(e) => Err(e),
                        Ok((name, q3)) => match spec_read_value(d, q3) {
                            Err(e) => Err(e),
                            Ok((v, q4)) => {
                                proof {
                                    lemma_read_value_advances(d, q3);
                                }
                                spec_parse_items(
                                    d,
                                    q4,
                                    args,
                                    assoc_insert(ctx, context_key(scope, name), v),
                                )
                            },
                        },
                    },
                }
            }
        } else {
            spec_parse_items(d, q, args, ctx)
        }
    }
}

/// One entry starting at `p`, and the position after it.
#[verifier::opaque]
pub open spec fn spec_parse_entry(d: Seq<u8>, p: int) -> Result<(AdsLogEntryModel, int), AdsErrorModel> {
    match spec_parse_header(d, p) {
        Err(e) => Err(e),
        Ok((h, q)) => match spec_parse_items(d, q, seq![], seq![]) {
            Err(e) => Err(e),
            Ok((args, ctx, r)) => Ok((AdsLogEntryModel { header: h, arguments: args, context: ctx }, r)),
        },
    }
}

/// Reading the fixed part of an entry moves past at least its version byte
/// and never beyond the buffer.
pub proof fn lemma_header_advances(d: Seq<u8>, p: int)
    ensures
        spec_parse_header(d, p) matches Ok((_, q)) ==> p + 1 <= q <= d.len(),
{
    lemma_read_string_advances(d, p + 1);
    if let Ok((_, p2)) = spec_read_string(d, p + 1) {
        lemma_read_string_advances(d, p2);
        if let Ok((_, p3)) = spec_read_string(d, p2) {
            if let Ok((_, p4)) = take_bytes(d, p3, 2) {
                if let Ok((_, q)) = spec_parse_intro(d, p) {
                    assert(q == p4);
                    if let Ok((_, t)) = spec_read_i32(d, q + 16) {
                        lemma_read_string_advances(d, t);
                        if let Ok((_, t2)) = spec_parse_task(d, q) {
                            lemma_read_string_advances(d, t2);
                            if let Ok((_, t3)) = spec_read_string(d, t2) {
                                lemma_read_string_advances(d, t3);
                            }
                        }
                    }
                }
            }
        }
    }
}

/// Reading items never moves back and never beyond the buffer.
pub proof fn lemma_items_advance(
    d: Seq<u8>,
    p: int,
    args: Seq<(usize, AdsValueModel)>,
    ctx: Seq<(Seq<char>, AdsValueModel)>,
)
    requires
        p <= d.len(),
    ensures
        spec_parse_items(d, p, args, ctx) matches Ok((_, _, q)) ==> p <= q <= d.len(),
    decreases d.len() - p,
{
    if p < d.len() {
        let type_id = d[p];
        let q = p + 1;
        if type_id == 1 && args.len() < MAX_ARGUMENTS {
            if let Ok((index, q2)) = spec_read_u8(d, q) {
                lemma_read_value_advances(d, q2);
                if let Ok((v, q3)) = spec_read_value(d, q2) {
                    lemma_items_advance(d, q3, assoc_insert(args, index as usize, v), ctx);
                }
            }
        } else if type_id == 2 && ctx.len() < MAX_CONTEXT_VARS {
            if let Ok((scope, q2)) = spec_read_u8(d, q) {
                lemma_read_string_advances(d, q2);
                if let Ok((name, q3)) = spec_read_string(d, q2) {
                    lemma_read_value_advances(d, q3);
                    if let Ok((v, q4)) = spec_read_value(d, q3) {
                        lemma_items_advance(
                            d,
                            q4,
                            args,
                            assoc_insert(ctx, context_key(scope, name), v),
                        );
                    }
                }
            }
        } else if type_id != 0 && type_id != 255 && type_id != 1 && type_id != 2 {
            lemma_items_advance(d, q, args, ctx);
        }
    }
}

/// Reading an entry moves past at least one byte and never beyond the buffer.
pub proof fn lemma_entry_advances(d: Seq<u8>, p: int)
    ensures
        spec_parse_entry(d, p) matches Ok((_, q)) ==> p + 1 <= q <= d.len(),
{
    reveal(spec_parse_entry);
    lemma_header_advances(d, p);
    if let Ok((_, q)) = spec_parse_header(d, p) {
        lemma_items_advance(d, q, seq![], seq![]);
    }
}

/// "Message size <n> exceeds maximum <max>".
pub open spec fn message_size_text(n: nat) -> Seq<char> {
    limit_text("Message size "@, n, MAX_MESSAGE_SIZE as nat)
}

/// The result of parsing one entry from the start of `d`.
pub open spec fn spec_parse(d: Seq<u8>) -> Result<AdsLogEntryModel, AdsErrorModel> {
    if d.len() > MAX_MESSAGE_SIZE {
        Err(AdsErrorModel::ParseError(message_size_text(d.len())))
    } else {
        match spec_parse_entry(d, 0) {
            Ok((e, _)) => Ok(e),
            Err(x) => Err(x),
        }
    }
}

/// Entries from `p` on, after those already in `acc`: reading stops at the
/// end of the data or at a zero byte where an entry would start; an entry
/// that fails to parse ends the reading, and is the result only when no
/// entry came before it.
pub open spec fn spec_parse_all_from(d: Seq<u8>, p: int, acc: Seq<AdsLogEntryModel>) -> Result<
    Seq<AdsLogEntryModel>,
    AdsErrorModel,
>
    decreases d.len() - p,
{
    if p >= d.len() || d[p] == 0 {
        Ok(acc)
    } else {
        match spec_parse_entry(d, p) {
            Ok((e, q)) => {
                proof {
                    lemma_entry_advances(d, p);
                }
                spec_parse_all_from(d, q, acc.push(e))
            },
            Err(x) => if acc.len() == 0 {
                Err(x)
            } else {
                Ok(acc)
            },
        }
    }
}

/// The result of parsing all entries of `d`.
pub open spec fn spec_parse_all(d: Seq<u8>) -> Result<Seq<AdsLogEntryModel>, AdsErrorModel> {
    if d.len() > MAX_MESSAGE_SIZE {
        Err(AdsErrorModel::ParseError(message_size_text(d.len())))
    } else {
        spec_parse_all_from(d, 0, seq![])
    }
}

/// The abstract forms of a list of entries.
pub open spec fn entries_view(v: Seq<AdsLogEntry>) -> Seq<AdsLogEntryModel> {
    v.map_values(|e: AdsLogEntry| e@)
}

/// Once one entry has been read, reading on never fails: the list read so
/// far is kept as the start of the result.
pub proof fn lemma_parse_all_keeps_prefix(d: Seq<u8>, p: int, acc: Seq<AdsLogEntryModel>)
    requires
        acc.len() > 0,
    ensures
        spec_parse_all_from(d, p, acc) matches Ok(es) && es.len() >= acc.len() && es.take(
            acc.len() as int,
        ) == acc,
    decreases d.len() - p,
{
    if p >= d.len() || d[p] == 0 {
        assert(acc.take(acc.len() as int) =~= acc);
    } else {
        match spec_parse_entry(d, p) {
            Ok((e, q)) => {
                lemma_entry_advances(d, p);
                lemma_parse_all_keeps_prefix(d, q, acc.push(e));
                let es = spec_parse_all_from(d, q, acc.push(e))->Ok_0;
                assert(es.take(acc.len() as int) =~= acc.push(e).take(acc.len() as int));
                assert(acc.push(e).take(acc.len() as int) =~= acc);
            },
            Err(_) => {
                assert(acc.take(acc.len() as int) =~= acc);
            },
        }
    }
}

/// Parsing one entry agrees with parsing all entries: for data that is not
/// empty and does not start with padding, `parse` succeeds exactly when
/// `parse_all` does, its entry is the first of the list, and on failure
/// both report the same error.
pub proof fn law_parse_is_first_of_parse_all(d: Seq<u8>)
    requires
        d.len() > 0,
        d[0] != 0,
    ensures
        spec_parse(d) is Ok <==> spec_parse_all(d) is Ok,
        spec_parse(d) matches Ok(e) ==> (spec_parse_all(d) matches Ok(es) && es.len() >= 1 && es[0]
            == e),
        spec_parse(d) matches Err(x) ==> spec_parse_all(d) == Err::<
            Seq<AdsLogEntryModel>,
            AdsErrorModel,
        >(x),
{
    if d.len() <= MAX_MESSAGE_SIZE {
        match spec_parse_entry(d, 0) {
            Ok((e, q)) => {
                let acc = Seq::<AdsLogEntryModel>::empty().push(e);
                lemma_entry_advances(d, 0);
                lemma_parse_all_keeps_prefix(d, q, acc);
                let es = spec_parse_all_from(d, q, acc)->Ok_0;
                assert(es.take(1)[0] == es[0]);
            },
            Err(_) => {},
        }
    }
}

/// Data within the size limit that is empty or starts with a zero byte
/// holds no entries.
pub proof fn law_padding_holds_no_entries(d: Seq<u8>)
    requires
        d.len() <= MAX_MESSAGE_SIZE,
        d.len() == 0 || d[0] == 0,
    ensures
        spec_parse_all(d) matches Ok(es) && es.len() == 0,
{
}

/// Parser for ADS log entries.
pub struct AdsParser;

impl AdsParser {
    /// Parses every entry of `data` (the PLC may pack several into one
    /// write). Stops at the end of the data or at zero padding; an entry that
    /// fails after at least one good one ends the list without error.
    pub fn parse_all(data: &[u8]) -> (r: Result<Vec<AdsLogEntry>, AdsError>)
        ensures
            match spec_parse_all(data@) {
                Ok(es) => r matches Ok(v) && entries_view(v@) == es,
                Err(e) => r matches Err(x) && x@ == e,
            },
    {
        if data.len() > MAX_MESSAGE_SIZE {
            return Err(
                AdsError::ParseError(
                    limit_message("Message size ", data.len() as u64, MAX_MESSAGE_SIZE as u64),
                ),
            );
        }
        let mut entries: Vec<AdsLogEntry> = Vec::new();
        let mut reader = BytesReader::new(data);
        let ghost d = data@;
        let ghost target = spec_parse_all_from(d, 0, seq![]);
        assert(entries_view(entries@) =~= seq![]);
        while reader.remaining() > 0
            invariant_except_break
                reader@.0 == d,
                d == data@,
                d.len() <= MAX_MESSAGE_SIZE,
                0 <= reader@.1 <= d.len(),
                target == spec_parse_all_from(d, 0, seq![]),
                spec_parse_all_from(d, reader@.1, entries_view(entries@)) == target,
            ensures
                d == data@,
                d.len() <= MAX_MESSAGE_SIZE,
                target == spec_parse_all_from(d, 0, seq![]),
                target == Ok::<Seq<AdsLogEntryModel>, AdsErrorModel>(entries_view(entries@)),
            decreases d.len() - reader@.1,
        {
            match reader.peek() {
                Some(0) => {
                    break;
                },
                _ => {},
            }
            let ghost p = reader@.1;
            let ghost before = entries_view(entries@);
            match Self::parse_from_reader(&mut reader) {
                Ok(entry) => {
                    proof {
                        lemma_entry_advances(d, p);
                    }
                    entries.push(entry);
                    assert(entries_view(entries@) =~= before.push(entry@));
                },
                Err(e) => {
                    if entries.len() == 0 {
                        assert(before =~= Seq::<AdsLogEntryModel>::empty());
                        return Err(e);
                    }
                    break;
                },
            }
        }
        Ok(entries)
    }

    /// Parses the entry at the start of `data`; what follows it is ignored.
    pub fn parse(data: &[u8]) -> (r: Result<AdsLogEntry, AdsError>)
        ensures
            match spec_parse(data@) {
                Ok(e) => r matches Ok(x) && x@ == e,
                Err(e) => r matches Err(x) && x@ == e,
            },
    {
        if data.len() > MAX_MESSAGE_SIZE {
            return Err(
                AdsError::ParseError(
                    limit_message("Message size ", data.len() as u64, MAX_MESSAGE_SIZE as u64),
                ),
            );
        }
        let mut reader = BytesReader::new(data);
        Self::parse_from_reader(&mut reader)
    }

    /// Reads one entry at the reader's position and leaves the reader after it.
    pub fn parse_from_reader(reader: &mut BytesReader) -> (r: Result<AdsLogEntry, AdsError>)
        ensures
            final(reader)@.0 == old(reader)@.0,
            match spec_parse_entry(old(reader)@.0, old(reader)@.1) {
                Ok((e, q)) => r matches Ok(x) && x@ == e && final(reader)@.1 == q,
                Err(e) => r matches Err(x) && x@ == e,
            },
    {
        proof {
            reveal(spec_parse_entry);
        }
        let (version, message, logger, level) = Self::parse_intro(reader)?;
        let (plc_timestamp, clock_timestamp, task_index, task_name, task_cycle_counter) =
            Self::parse_task(reader)?;
        let (app_name, project_name, online_change_count) = Self::parse_app(reader)?;
        let mut arguments: ArgMap<AdsValue> = ArgMap::new();
        let mut context: NamedMap<AdsValue> = NamedMap::new();
        Self::parse_items(reader, &mut arguments, &mut context)?;

        Ok(
            AdsLogEntry {
                version,
                message,
                logger,
                level,
                plc_timestamp,
                clock_timestamp,
                task_index,
                task_name,
                task_cycle_counter,
                app_name,
                project_name,
                online_change_count,
                arguments,
                context,
            },
        )
    }

    fn parse_intro(reader: &mut BytesReader) -> (r: Result<
        (AdsProtocolVersion, String, String, LogLevel),
        AdsError,
    >)
        ensures
            final(reader)@.0 == old(reader)@.0,
            match spec_parse_intro(old(reader)@.0, old(reader)@.1) {
                Ok(((v, m, l, lv), q)) => r matches Ok(x) && x.0 == v && x.1@ == m && x.2@ == l
                    && x.3 == lv && final(reader)@.1 == q,
                Err(e) => r matches Err(x) && x@ == e,
            },
    {
        let version_byte = reader.read_u8()?;
        let version = match AdsProtocolVersion::from_u8(version_byte) {
            Some(v) => v,
            None => {
                return Err(AdsError::InvalidVersion(version_byte));
            },
        };
        let message = reader.read_string()?;
        let logger = reader.read_string()?;
        let level_bytes = reader.read_bytes(2)?;
        assert(level_bytes@.len() == 2);
        let low = level_bytes[0];
        let high = level_bytes[1];
        let level_u16: u16 = low as u16 + (high as u16) * 256;
        assert((level_u16 as u8) == low) by (bit_vector)
            requires
                level_u16 == low as u16 + (high as u16) * 256,
        ;
        let level = match LogLevel::from_u8(level_u16 as u8) {
            Some(l) => l,
            None => {
                let digits = u64_to_decimal(level_u16 as u64);
                let mut text = str_to_chars("Invalid log level: ");
                append_chars(&mut text, &digits);
                return Err(AdsError::ParseError(chars_to_string(&text)));
            },
        };
        Ok((version, message, logger, level))
    }

    fn parse_task(reader: &mut BytesReader) -> (r: Result<
        (Timestamp, Timestamp, i32, String, u32),
        AdsError,
    >)
        ensures
            final(reader)@.0 == old(reader)@.0,
            match spec_parse_task(old(reader)@.0, old(reader)@.1) {
                Ok(((plc, clock, ti, tn, tc), q)) => r matches Ok(x) && x.0@ == plc && x.1@ == clock
                    && x.2 == ti && x.3@ == tn && x.4 == tc && final(reader)@.1 == q,
                Err(e) => r matches Err(x) && x@ == e,
            },
    {
        let plc_timestamp = reader.read_filetime()?;
        let clock_timestamp = reader.read_filetime()?;
        let task_index = reader.read_i32()?;
        let task_name = reader.read_string()?;
        let task_cycle_counter = reader.read_u32()?;
        Ok((plc_timestamp, clock_timestamp, task_index, task_name, task_cycle_counter))
    }

    fn parse_app(reader: &mut BytesReader) -> (r: Result<(String, String, u32), AdsError>)
        ensures
            final(reader)@.0 == old(reader)@.0,
            match spec_parse_app(old(reader)@.0, old(reader)@.1) {
                Ok(((app, project, online), q)) => r matches Ok(x) && x.0@ == app && x.1@ == project
                    && x.2 == online && final(reader)@.1 == q,
                Err(e) => r matches Err(x) && x@ == e,
            },
    {
        let app_name = reader.read_string()?;
        let project_name = reader.read_string()?;
        let online_change_count = reader.read_u32()?;
        Ok((app_name, project_name, online_change_count))
    }

    /// Reads items into `arguments` and `context` until the data ends or an
    /// end marker is read.
    #[verifier::rlimit(40)]
    fn parse_items(
        reader: &mut BytesReader,
        arguments: &mut ArgMap<AdsValue>,
        context: &mut NamedMap<AdsValue>,
    ) -> (r: Result<(), AdsError>)
        requires
            old(arguments)@.len() <= MAX_ARGUMENTS,
            old(context)@.len() <= MAX_CONTEXT_VARS,
        ensures
            final(reader)@.0 == old(reader)@.0,
            match spec_parse_items(old(reader)@.0, old(reader)@.1, old(arguments)@, old(context)@) {
                Ok((a, c, q)) => r is Ok && final(arguments)@ == a && final(context)@ == c
                    && final(reader)@.1 == q,
                Err(e) => r matches Err(x) && x@ == e,
            },
    {
        let ghost d = reader@.0;
        let ghost target = spec_parse_items(d, reader@.1, arguments@, context@);
        loop
            invariant_except_break
                reader@.0 == d,
                d == old(reader)@.0,
                target == spec_parse_items(
                    old(reader)@.0,
                    old(reader)@.1,
                    old(arguments)@,
                    old(context)@,
                ),
                arguments@.len() <= MAX_ARGUMENTS,
                context@.len() <= MAX_CONTEXT_VARS,
                spec_parse_items(d, reader@.1, arguments@, context@) == target,
            ensures
                reader@.0 == d,
                target == spec_parse_items(
                    old(reader)@.0,
                    old(reader)@.1,
                    old(arguments)@,
                    old(context)@,
                ),
                target == Ok::<
                    (Seq<(usize, AdsValueModel)>, Seq<(Seq<char>, AdsValueModel)>, int),
                    AdsErrorModel,
                >((arguments@, context@, reader@.1)),
            decreases d.len() - reader@.1,
        {
            if reader.remaining() == 0 {
                break;
            }
            let type_id = reader.read_u8()?;
            if type_id == 0 || type_id == 255 {
                break;
            }
            if type_id == 1 {
                if arguments.len() >= MAX_ARGUMENTS {
                    return Err(
                        AdsError::ParseError(
                            limit_message(
                                "Too many arguments: ",
                                (arguments.len() + 1) as u64,
                                MAX_ARGUMENTS as u64,
                            ),
                        ),
                    );
                }
                let index = reader.read_u8()?;
                let value = reader.read_value()?;
                arguments.insert(index as usize, value);
            } else if type_id == 2 {
                if context.len() >= MAX_CONTEXT_VARS {
                    return Err(
                        AdsError::ParseError(
                            limit_message(
                                "Too many context variables: ",
                                (context.len() + 1) as u64,
                                MAX_CONTEXT_VARS as u64,
                            ),
                        ),
                    );
                }
                let scope = reader.read_u8()?;
                let name = reader.read_string()?;
                let value = reader.read_value()?;
                let mut key = str_to_chars("scope_");
                append_chars(&mut key, &u64_to_decimal(scope as u64));
                append_chars(&mut key, &str_to_chars("_"));
                append_chars(&mut key, &str_to_chars(name.as_str()));
                context.insert(chars_to_string(&key), value);
            }
        }
        Ok(())
    }
}


} // verus!
