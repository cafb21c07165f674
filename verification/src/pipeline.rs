//! The way of an entry through the service: from a parsed ADS entry to a
//! `LogEntry`, and from a `LogEntry` to the record handed to the outputs.

use vstd::prelude::*;
use crate::formatter::{format_with_context_text, MessageFormatter};
use crate::json::{Number, Value};
use crate::maps::{has_key, key_index, keys_distinct, ArgMap, NamedMap};
use crate::models::{
    is_uuid_v4_text, log_attributes_of, resource_attributes_of, LogEntry, LogRecord,
};
use crate::level::{otel_severity_number, otel_severity_text};
use crate::maps::assoc_insert;
use crate::parser::AdsLogEntry;
use crate::values::{AdsValue, AdsValueModel};
use crate::text::{decimal, text_with, u64_to_decimal};
use crate::timestamp::chrono_rfc3339;

verus! {

/// The host name given to the entries of a PLC connected from TCP port
/// `port`: `plc-` and the port in decimal.
pub open spec fn plc_hostname(port: u16) -> Seq<char> {
    "plc-"@ + decimal(port as nat)
}

/// The host name of a PLC connected from TCP port `port`.
pub fn plc_hostname_text(port: u16) -> (s: String)
    ensures
        s@ == plc_hostname(port),
{
    let digits = u64_to_decimal(port as u64);
    text_with("plc-", &digits)
}

/// Whether `j` is the JSON form of the ADS value `a`: null, booleans,
/// integers and text stay what they are; a floating-point value becomes a
/// JSON number written `float_text`.
pub open spec fn json_form(a: AdsValueModel, float_text: Seq<char>, j: Value) -> bool {
    match a {
        AdsValueModel::Null => j == Value::Null,
        AdsValueModel::Bool(b) => j == Value::Bool(b),
        AdsValueModel::UInt(u) => j == Value::Number(Number::PosInt(u)),
        AdsValueModel::Int(i) => j == Value::Number(Number::NegInt(i)),
        AdsValueModel::Real(_) => j matches Value::Number(Number::Float(t)) && t@ == float_text,
        AdsValueModel::LReal(_) => j matches Value::Number(Number::Float(t)) && t@ == float_text,
        AdsValueModel::Text(s) => j matches Value::String(t) && t@ == s,
    }
}

/// The JSON form of an ADS value; `float_text` is the number text used when
/// the value is floating point (and unused otherwise).
pub fn json_of_ads_value(v: &AdsValue, float_text: String) -> (j: Value)
    ensures
        json_form(v@, float_text@, j),
{
    match v {
        AdsValue::Null => Value::Null,
        AdsValue::Bool(b) => Value::Bool(*b),
        AdsValue::UInt(u) => Value::Number(Number::PosInt(*u)),
        AdsValue::Int(i) => Value::Number(Number::NegInt(*i)),
        AdsValue::Real(_) => Value::Number(Number::Float(float_text)),
        AdsValue::LReal(_) => Value::Number(Number::Float(float_text)),
        AdsValue::Text(s) => Value::String(s.clone()),
    }
}

/// Whether `out` holds, in order and under the same keys, the JSON forms of
/// the values of `src`, the `k`-th float taking the text `texts[k]`.
pub open spec fn json_items<K>(
    src: Seq<(K, AdsValueModel)>,
    texts: Seq<String>,
    out: Seq<(K, Value)>,
) -> bool {
    &&& out.len() == src.len()
    &&& forall|k: int|
        0 <= k < src.len() ==> (#[trigger] out[k]).0 == src[k].0 && json_form(
            src[k].1,
            texts[k]@,
            out[k].1,
        )
}

/// The arguments of an ADS entry in JSON form.
pub fn json_arguments(args: &ArgMap<AdsValue>, float_texts: &Vec<String>) -> (out: ArgMap<Value>)
    requires
        float_texts@.len() == args@.len(),
    ensures
        json_items(args@, float_texts@, out@),
{
    let es = args.entries();
    let ghost src = args@;
    let mut out: ArgMap<Value> = ArgMap::new();
    let mut k: usize = 0;
    while k < es.len()
        invariant
            k <= es@.len(),
            src == args@,
            es@.map_values(|e: (usize, AdsValue)| (e.0, e.1@)) == src,
            keys_distinct(src),
            float_texts@.len() == src.len(),
            out@.len() == k,
            forall|j: int|
                0 <= j < k ==> (#[trigger] out@[j]).0 == src[j].0 && json_form(
                    src[j].1,
                    float_texts@[j]@,
                    out@[j].1,
                ),
        decreases es.len() - k,
    {
        let (index, value) = &es[k];
        assert(src[k as int] == (*index, value@));
        let j = json_of_ads_value(value, float_texts[k].clone());
        let ghost before = out@;
        assert(!has_key(before, *index)) by {
            if has_key(before, *index) {
                let m = key_index(before, *index);
                assert(before[m].0 == src[m].0);
            }
        }
        out.insert(*index, j);
        assert(out@ == before.push((*index, j)));
        k = k + 1;
    }
    out
}

/// The context of an ADS entry in JSON form.
pub fn json_context(ctx: &NamedMap<AdsValue>, float_texts: &Vec<String>) -> (out: NamedMap<Value>)
    requires
        float_texts@.len() == ctx@.len(),
    ensures
        json_items(ctx@, float_texts@, out@),
{
    let es = ctx.entries();
    let ghost src = ctx@;
    let mut out: NamedMap<Value> = NamedMap::new();
    let mut k: usize = 0;
    while k < es.len()
        invariant
            k <= es@.len(),
            src == ctx@,
            es@.map_values(|e: (String, AdsValue)| (e.0@, e.1@)) == src,
            keys_distinct(src),
            float_texts@.len() == src.len(),
            out@.len() == k,
            forall|j: int|
                0 <= j < k ==> (#[trigger] out@[j]).0 == src[j].0 && json_form(
                    src[j].1,
                    float_texts@[j]@,
                    out@[j].1,
                ),
        decreases es.len() - k,
    {
        let (name, value) = &es[k];
        assert(src[k as int] == (name@, value@));
        let j = json_of_ads_value(value, float_texts[k].clone());
        let ghost before = out@;
        assert(!has_key(before, name@)) by {
            if has_key(before, name@) {
                let m = key_index(before, name@);
                assert(before[m].0 == src[m].0);
            }
        }
        out.insert(name.clone(), j);
        assert(out@ == before.push((name@, j)));
        k = k + 1;
    }
    out
}

/// The entry for a log message read from a PLC: a fresh id, `source` as the
/// source address, `plc-<port>` as host name, and message, logger, level,
/// both timestamps, task and application data from the ADS entry. Its
/// arguments and context are the JSON forms of the ADS entry's own, in the
/// same order, the `k`-th floating-point argument (context variable) written
/// as `argument_float_texts[k]` (`context_float_texts[k]`).
pub fn entry_from_ads(
    ads: AdsLogEntry,
    source: String,
    peer_port: u16,
    argument_float_texts: Vec<String>,
    context_float_texts: Vec<String>,
) -> (e: LogEntry)
    requires
        argument_float_texts@.len() == ads.arguments@.len(),
        context_float_texts@.len() == ads.context@.len(),
    ensures
        is_uuid_v4_text(e.id@),
        e.source == source,
        e.hostname@ == plc_hostname(peer_port),
        e.message == ads.message,
        e.logger == ads.logger,
        e.level == ads.level,
        e.plc_timestamp@ == ads.plc_timestamp@,
        e.clock_timestamp@ == ads.clock_timestamp@,
        e.task_index == ads.task_index,
        e.task_name == ads.task_name,
        e.task_cycle_counter == ads.task_cycle_counter,
        e.app_name == ads.app_name,
        e.project_name == ads.project_name,
        e.online_change_count == ads.online_change_count,
        json_items(ads.arguments@, argument_float_texts@, e.arguments@),
        json_items(ads.context@, context_float_texts@, e.context@),
{
    let arguments = json_arguments(&ads.arguments, &argument_float_texts);
    let context = json_context(&ads.context, &context_float_texts);
    let hostname = plc_hostname_text(peer_port);
    let mut entry = LogEntry::new(source, hostname, ads.message, ads.logger, ads.level);
    entry.plc_timestamp = ads.plc_timestamp;
    entry.clock_timestamp = ads.clock_timestamp;
    entry.task_index = ads.task_index;
    entry.task_name = ads.task_name;
    entry.task_cycle_counter = ads.task_cycle_counter;
    entry.app_name = ads.app_name;
    entry.project_name = ads.project_name;
    entry.online_change_count = ads.online_change_count;
    entry.arguments = arguments;
    entry.context = context;
    entry
}

/// The record that the outputs receive for `entry`: its OpenTelemetry
/// record, with the message template filled in from the entry's arguments
/// and context as body.
pub fn dispatch_record(entry: LogEntry) -> (r: LogRecord)
    ensures
        r.body matches Value::String(b) && b@ == format_with_context_text(
            entry.message@,
            entry.arguments@,
            entry.context@,
        ),
        r.timestamp@ == entry.clock_timestamp@,
        r.severity_number == otel_severity_number(entry.level),
        r.severity_text@ == otel_severity_text(entry.level),
        r.resource_attributes@ == resource_attributes_of(entry),
        r.scope_attributes@ == assoc_insert(
            Seq::<(Seq<char>, Value)>::empty(),
            "logger.name"@,
            Value::String(entry.logger),
        ),
        exists|plc_text: String|
            plc_text@ == chrono_rfc3339(entry.plc_timestamp@.0, entry.plc_timestamp@.1)
                && r.log_attributes@ == log_attributes_of(entry, plc_text),
{
    let formatted = MessageFormatter::format_with_context(
        entry.message.as_str(),
        &entry.arguments,
        &entry.context,
    );
    let mut record = LogRecord::from_log_entry(entry);
    record.body = Value::String(formatted);
    record
}

} // verus!
