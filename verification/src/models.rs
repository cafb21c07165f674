//! Log entries as the service handles them, and their OpenTelemetry form.

use vstd::prelude::*;
use crate::json::{Number, Value};
use crate::level::{otel_severity_number, otel_severity_text, LogLevel};
use crate::maps::{
    assoc_get, assoc_insert, has_key, keys_distinct, lemma_get_after_insert, lemma_insert_distinct,
    ArgMap, NamedMap,
};
use crate::formatter::lemma_decimal_reads_back;
use crate::text::{append_chars, chars_to_string, decimal, str_to_chars, u64_to_decimal};
use crate::timestamp::{chrono_rfc3339, Timestamp};

verus! {

/// Whether `c` is a lower-case hexadecimal digit.
pub open spec fn is_lower_hex(c: char) -> bool {
    ('0' <= c && c <= '9') || ('a' <= c && c <= 'f')
}

/// Whether `s` is the hyphenated lower-case text of a version-4 (random)
/// UUID: 8-4-4-4-12 hex digits, version digit 4, variant digit 8, 9, a or b.
pub open spec fn is_uuid_v4_text(s: Seq<char>) -> bool {
    &&& s.len() == 36
    &&& forall|i: int|
        0 <= i < 36 ==> if i == 8 || i == 13 || i == 18 || i == 23 {
            s[i] == '-'
        } else {
            is_lower_hex(#[trigger] s[i])
        }
    &&& s[14] == '4'
    &&& (s[19] == '8' || s[19] == '9' || s[19] == 'a' || s[19] == 'b')
}

/// Calls uuid's `Uuid::new_v4().to_string()`. Claimed, as the uuid crate
/// documents and its source shows: the text is a hyphenated lower-case
/// version-4 UUID. Which one is random; nothing more is claimed.
#[verifier::external_body]
fn new_uuid_v4_text() -> (s: String)
    ensures
        is_uuid_v4_text(s@),
{
    uuid::Uuid::new_v4().to_string()
}

/// A log entry from the ADS protocol or another receiver.
pub struct LogEntry {
    pub id: String,
    pub source: String,
    pub hostname: String,
    pub message: String,
    pub logger: String,
    pub level: LogLevel,
    pub plc_timestamp: Timestamp,
    pub clock_timestamp: Timestamp,
    pub task_index: i32,
    pub task_name: String,
    pub task_cycle_counter: u32,
    pub app_name: String,
    pub project_name: String,
    pub online_change_count: u32,
    pub arguments: ArgMap<Value>,
    pub context: NamedMap<Value>,
}

impl LogEntry {
    /// A new entry with a fresh random id, both timestamps set to now, and
    /// empty task data, application data, arguments and context.
    pub fn new(
        source: String,
        hostname: String,
        message: String,
        logger: String,
        level: LogLevel,
    ) -> (e: Self)
        ensures
            is_uuid_v4_text(e.id@),
            e.source == source,
            e.hostname == hostname,
            e.message == message,
            e.logger == logger,
            e.level == level,
            e.task_index == 0,
            e.task_name@ == Seq::<char>::empty(),
            e.task_cycle_counter == 0,
            e.app_name@ == Seq::<char>::empty(),
            e.project_name@ == Seq::<char>::empty(),
            e.online_change_count == 0,
            e.arguments@ == Seq::<(usize, Value)>::empty(),
            e.context@ == Seq::<(Seq<char>, Value)>::empty(),
    {
        LogEntry {
            id: new_uuid_v4_text(),
            source,
            hostname,
            message,
            logger,
            level,
            plc_timestamp: Timestamp::now(),
            clock_timestamp: Timestamp::now(),
            task_index: 0,
            task_name: String::new(),
            task_cycle_counter: 0,
            app_name: String::new(),
            project_name: String::new(),
            online_change_count: 0,
            arguments: ArgMap::new(),
            context: NamedMap::new(),
        }
    }
}

/// An OpenTelemetry log record.
pub struct LogRecord {
    pub timestamp: Timestamp,
    pub body: Value,
    pub severity_number: i32,
    pub severity_text: String,
    pub resource_attributes: NamedMap<Value>,
    pub scope_attributes: NamedMap<Value>,
    pub log_attributes: NamedMap<Value>,
}

/// The JSON number of an integer: `PosInt` when non-negative, else `NegInt`.
pub open spec fn integer_number(i: int) -> Number {
    if i < 0 {
        Number::NegInt(i as i64)
    } else {
        Number::PosInt(i as u64)
    }
}

/// The resource attributes of a record made from `e`, in insertion order.
pub open spec fn resource_attributes_of(e: LogEntry) -> Seq<(Seq<char>, Value)> {
    let a0 = Seq::<(Seq<char>, Value)>::empty();
    let a1 = assoc_insert(a0, "service.name"@, Value::String(e.project_name));
    let a2 = assoc_insert(a1, "service.instance.id"@, Value::String(e.app_name));
    let a3 = assoc_insert(a2, "host.name"@, Value::String(e.hostname));
    let a4 = assoc_insert(
        a3,
        "process.pid"@,
        Value::Number(integer_number(e.task_index as int)),
    );
    assoc_insert(a4, "process.command_line"@, Value::String(e.task_name))
}

/// The arguments inserted one by one under the keys "arg.<index>".
pub open spec fn with_arguments(
    attrs: Seq<(Seq<char>, Value)>,
    args: Seq<(usize, Value)>,
) -> Seq<(Seq<char>, Value)>
    decreases args.len(),
{
    if args.len() == 0 {
        attrs
    } else {
        assoc_insert(with_arguments(attrs, args.drop_last()), argument_key(args.last().0), args.last().1)
    }
}

/// The log attributes of a record made from `e`, given the string object
/// that holds the RFC 3339 text of its PLC timestamp: the context, then the
/// four standard attributes, then the arguments.
pub open spec fn log_attributes_of(e: LogEntry, plc_text: String) -> Seq<(Seq<char>, Value)> {
    let l0 = e.context@;
    let l1 = assoc_insert(l0, "plc.timestamp"@, Value::String(plc_text));
    let l2 = assoc_insert(
        l1,
        "task.cycle"@,
        Value::Number(Number::PosInt(e.task_cycle_counter as u64)),
    );
    let l3 = assoc_insert(
        l2,
        "online.changes"@,
        Value::Number(Number::PosInt(e.online_change_count as u64)),
    );
    let l4 = assoc_insert(l3, "source.address"@, Value::String(e.source));
    with_arguments(l4, e.arguments@)
}

fn number_of_i32(i: i32) -> (n: Number)
    ensures
        n == integer_number(i as int),
{
    if i < 0 {
        Number::NegInt(i as i64)
    } else {
        Number::PosInt(i as u64)
    }
}

impl LogRecord {
    /// The OpenTelemetry record of an entry: timestamp from the clock time,
    /// the message as body, severity from the level, the project, application,
    /// host and task as resource attributes, the logger as scope attribute,
    /// and the context, PLC time, cycle, online changes, source address and
    /// arguments as log attributes.
    pub fn from_log_entry(entry: LogEntry) -> (r: Self)
        ensures
            r.timestamp@ == entry.clock_timestamp@,
            r.body == Value::String(entry.message),
            r.severity_number == otel_severity_number(entry.level),
            r.severity_text@ == otel_severity_text(entry.level),
            r.resource_attributes@ == resource_attributes_of(entry),
            r.scope_attributes@ == assoc_insert(
                Seq::<(Seq<char>, Value)>::empty(),
                "logger.name"@,
                Value::String(entry.logger),
            ),
            exists|plc_text: String|
                plc_text@ == chrono_rfc3339(entry.plc_timestamp@.0, entry.plc_timestamp@.1)
                    && r.log_attributes@ == log_attributes_of(entry, plc_text),
    {
        let ghost e = entry;
        let severity_number = entry.level.to_otel_severity_number();
        let severity_text = String::from_str(entry.level.to_otel_severity_text());

        let mut resource_attributes: NamedMap<Value> = NamedMap::new();
        resource_attributes.insert(
            String::from_str("service.name"),
            Value::String(entry.project_name),
        );
        resource_attributes.insert(
            String::from_str("service.instance.id"),
            Value::String(entry.app_name),
        );
        resource_attributes.insert(String::from_str("host.name"), Value::String(entry.hostname));
        resource_attributes.insert(
            String::from_str("process.pid"),
            Value::Number(number_of_i32(entry.task_index)),
        );
        resource_attributes.insert(
            String::from_str("process.command_line"),
            Value::String(entry.task_name),
        );

        let mut scope_attributes: NamedMap<Value> = NamedMap::new();
        scope_attributes.insert(String::from_str("logger.name"), Value::String(entry.logger));

        let mut log_attributes: NamedMap<Value> = entry.context;
        let plc_text = entry.plc_timestamp.to_rfc3339();
        let ghost plc_string = plc_text;
        log_attributes.insert(String::from_str("plc.timestamp"), Value::String(plc_text));
        log_attributes.insert(
            String::from_str("task.cycle"),
            Value::Number(Number::PosInt(entry.task_cycle_counter as u64)),
        );
        log_attributes.insert(
            String::from_str("online.changes"),
            Value::Number(Number::PosInt(entry.online_change_count as u64)),
        );
        log_attributes.insert(String::from_str("source.address"), Value::String(entry.source));
        let ghost standard = log_attributes@;

        let mut arguments = entry.arguments.into_entries();
        let ghost args_view = e.arguments@;
        let total = arguments.len();
        let mut i: usize = 0;
        assert(args_view.take(0) =~= Seq::<(usize, Value)>::empty());
        while arguments.len() > 0
            invariant
                i + arguments@.len() == total,
                args_view.len() == total,
                arguments@ == args_view.skip(i as int),
                log_attributes@ == with_arguments(standard, args_view.take(i as int)),
            decreases arguments.len(),
        {
            let (idx, value) = arguments.remove(0);
            let mut key = str_to_chars("arg.");
            append_chars(&mut key, &u64_to_decimal(idx as u64));
            log_attributes.insert(chars_to_string(&key), value);
            assert(args_view.take(i + 1).drop_last() =~= args_view.take(i as int));
            assert(arguments@ =~= args_view.skip(i + 1));
            i = i + 1;
        }
        assert(args_view.take(total as int) =~= args_view);
        assert(plc_string@ == chrono_rfc3339(e.plc_timestamp@.0, e.plc_timestamp@.1));
        assert(log_attributes@ == log_attributes_of(e, plc_string));

        LogRecord {
            timestamp: entry.clock_timestamp,
            body: Value::String(entry.message),
            severity_number,
            severity_text,
            resource_attributes,
            scope_attributes,
            log_attributes,
        }
    }
}


/// The resource attributes of a record hold five distinct keys: the project
/// as service name, the application as instance id, the host name, the task
/// index as process id and the task name as command line.
pub proof fn law_resource_attributes(e: LogEntry)
    ensures
        resource_attributes_of(e).len() == 5,
        keys_distinct(resource_attributes_of(e)),
        assoc_get(resource_attributes_of(e), "service.name"@) == Some(Value::String(e.project_name)),
        assoc_get(resource_attributes_of(e), "service.instance.id"@) == Some(
            Value::String(e.app_name),
        ),
        assoc_get(resource_attributes_of(e), "host.name"@) == Some(Value::String(e.hostname)),
        assoc_get(resource_attributes_of(e), "process.pid"@) == Some(
            Value::Number(integer_number(e.task_index as int)),
        ),
        assoc_get(resource_attributes_of(e), "process.command_line"@) == Some(
            Value::String(e.task_name),
        ),
{
    reveal_strlit("service.name");
    reveal_strlit("service.instance.id");
    reveal_strlit("host.name");
    reveal_strlit("process.pid");
    reveal_strlit("process.command_line");
    let k1 = "service.name"@;
    let k2 = "service.instance.id"@;
    let k3 = "host.name"@;
    let k4 = "process.pid"@;
    let k5 = "process.command_line"@;
    assert(k1.len() == 12 && k2.len() == 19 && k3.len() == 9 && k4.len() == 11 && k5.len() == 20);
    assert(k1 != k2 && k1 != k3 && k1 != k4 && k1 != k5);
    assert(k2 != k3 && k2 != k4 && k2 != k5);
    assert(k3 != k4 && k3 != k5 && k4 != k5);
    let a0 = Seq::<(Seq<char>, Value)>::empty();
    let v1 = Value::String(e.project_name);
    let v2 = Value::String(e.app_name);
    let v3 = Value::String(e.hostname);
    let v4 = Value::Number(integer_number(e.task_index as int));
    let v5 = Value::String(e.task_name);
    let a1 = assoc_insert(a0, k1, v1);
    let a2 = assoc_insert(a1, k2, v2);
    let a3 = assoc_insert(a2, k3, v3);
    let a4 = assoc_insert(a3, k4, v4);
    let a5 = assoc_insert(a4, k5, v5);
    assert(!has_key(a0, k1));
    assert(a1 =~= seq![(k1, v1)]);
    assert(!has_key(a1, k2));
    assert(a2 =~= seq![(k1, v1), (k2, v2)]);
    assert(!has_key(a2, k3));
    assert(a3 =~= seq![(k1, v1), (k2, v2), (k3, v3)]);
    assert(!has_key(a3, k4));
    assert(a4 =~= seq![(k1, v1), (k2, v2), (k3, v3), (k4, v4)]);
    assert(!has_key(a4, k5));
    assert(a5 =~= seq![(k1, v1), (k2, v2), (k3, v3), (k4, v4), (k5, v5)]);
    lemma_get_after_insert(a0, k1, v1, k1);
    lemma_insert_distinct(a0, k1, v1);
    lemma_get_after_insert(a1, k2, v2, k1);
    lemma_insert_distinct(a1, k2, v2);
    lemma_get_after_insert(a2, k3, v3, k1);
    lemma_get_after_insert(a2, k3, v3, k2);
    lemma_insert_distinct(a2, k3, v3);
    lemma_get_after_insert(a3, k4, v4, k1);
    lemma_get_after_insert(a3, k4, v4, k2);
    lemma_get_after_insert(a3, k4, v4, k3);
    lemma_insert_distinct(a3, k4, v4);
    lemma_get_after_insert(a4, k5, v5, k1);
    lemma_get_after_insert(a4, k5, v5, k2);
    lemma_get_after_insert(a4, k5, v5, k3);
    lemma_get_after_insert(a4, k5, v5, k4);
    lemma_insert_distinct(a4, k5, v5);
}

/// Inserting the arguments leaves every key that does not start with
/// "arg." as it was.
pub proof fn lemma_arguments_keep_other_keys(
    attrs: Seq<(Seq<char>, Value)>,
    args: Seq<(usize, Value)>,
    k: Seq<char>,
)
    requires
        keys_distinct(attrs),
        !(k.len() >= 4 && k.take(4) == "arg."@),
    ensures
        keys_distinct(with_arguments(attrs, args)),
        assoc_get(with_arguments(attrs, args), k) == assoc_get(attrs, k),
    decreases args.len(),
{
    reveal_strlit("arg.");
    if args.len() > 0 {
        lemma_arguments_keep_other_keys(attrs, args.drop_last(), k);
        let prev = with_arguments(attrs, args.drop_last());
        let key = argument_key(args.last().0);
        assert(key.take(4) =~= "arg."@);
        lemma_get_after_insert(prev, key, args.last().1, k);
        lemma_insert_distinct(prev, key, args.last().1);
    }
}

/// The four standard log attributes of a record carry the entry's PLC
/// timestamp text, task cycle, online change count and source address,
/// whatever the context and the arguments hold.
pub proof fn law_standard_log_attributes(e: LogEntry, plc_text: String)
    requires
        keys_distinct(e.context@),
    ensures
        keys_distinct(log_attributes_of(e, plc_text)),
        assoc_get(log_attributes_of(e, plc_text), "plc.timestamp"@) == Some(
            Value::String(plc_text),
        ),
        assoc_get(log_attributes_of(e, plc_text), "task.cycle"@) == Some(
            Value::Number(Number::PosInt(e.task_cycle_counter as u64)),
        ),
        assoc_get(log_attributes_of(e, plc_text), "online.changes"@) == Some(
            Value::Number(Number::PosInt(e.online_change_count as u64)),
        ),
        assoc_get(log_attributes_of(e, plc_text), "source.address"@) == Some(
            Value::String(e.source),
        ),
{
    reveal_strlit("plc.timestamp");
    reveal_strlit("task.cycle");
    reveal_strlit("online.changes");
    reveal_strlit("source.address");
    reveal_strlit("arg.");
    let k1 = "plc.timestamp"@;
    let k2 = "task.cycle"@;
    let k3 = "online.changes"@;
    let k4 = "source.address"@;
    assert(k1 != k2 && k1 != k3 && k1 != k4 && k2 != k3 && k2 != k4 && k3 != k4) by {
        assert(k1[0] != k2[0]);
        assert(k1[0] != k3[0]);
        assert(k1[0] != k4[0]);
        assert(k2[0] != k3[0]);
        assert(k2[0] != k4[0]);
        assert(k3[0] != k4[0]);
    }
    let v1 = Value::String(plc_text);
    let v2 = Value::Number(Number::PosInt(e.task_cycle_counter as u64));
    let v3 = Value::Number(Number::PosInt(e.online_change_count as u64));
    let v4 = Value::String(e.source);
    let l0 = e.context@;
    let l1 = assoc_insert(l0, k1, v1);
    let l2 = assoc_insert(l1, k2, v2);
    let l3 = assoc_insert(l2, k3, v3);
    let l4 = assoc_insert(l3, k4, v4);
    lemma_get_after_insert(l0, k1, v1, k1);
    lemma_insert_distinct(l0, k1, v1);
    lemma_get_after_insert(l1, k2, v2, k1);
    lemma_insert_distinct(l1, k2, v2);
    lemma_get_after_insert(l2, k3, v3, k1);
    lemma_get_after_insert(l2, k3, v3, k2);
    lemma_insert_distinct(l2, k3, v3);
    lemma_get_after_insert(l3, k4, v4, k1);
    lemma_get_after_insert(l3, k4, v4, k2);
    lemma_get_after_insert(l3, k4, v4, k3);
    lemma_insert_distinct(l3, k4, v4);
    assert(k1.take(4) != "arg."@) by {
        assert(k1.take(4)[0] != "arg."@[0]);
    }
    assert(k2.take(4) != "arg."@) by {
        assert(k2.take(4)[0] != "arg."@[0]);
    }
    assert(k3.take(4) != "arg."@) by {
        assert(k3.take(4)[0] != "arg."@[0]);
    }
    assert(k4.take(4) != "arg."@) by {
        assert(k4.take(4)[0] != "arg."@[0]);
    }
    lemma_arguments_keep_other_keys(l4, e.arguments@, k1);
    lemma_arguments_keep_other_keys(l4, e.arguments@, k2);
    lemma_arguments_keep_other_keys(l4, e.arguments@, k3);
    lemma_arguments_keep_other_keys(l4, e.arguments@, k4);
}


/// The key under which argument `i` is stored.
pub open spec fn argument_key(i: usize) -> Seq<char> {
    "arg."@ + decimal(i as nat)
}

proof fn lemma_argument_keys_differ(i: usize, j: usize)
    requires
        i != j,
    ensures
        argument_key(i) != argument_key(j),
{
    reveal_strlit("arg.");
    lemma_decimal_reads_back(i as nat);
    lemma_decimal_reads_back(j as nat);
    if argument_key(i) == argument_key(j) {
        assert(argument_key(i).skip(4) =~= decimal(i as nat));
        assert(argument_key(j).skip(4) =~= decimal(j as nat));
    }
}

proof fn lemma_arguments_readable(attrs: Seq<(Seq<char>, Value)>, args: Seq<(usize, Value)>)
    requires
        keys_distinct(attrs),
        keys_distinct(args),
    ensures
        keys_distinct(with_arguments(attrs, args)),
        forall|k: int|
            0 <= k < args.len() ==> assoc_get(with_arguments(attrs, args), argument_key(#[trigger] args[k].0))
                == Some(args[k].1),
    decreases args.len(),
{
    if args.len() > 0 {
        let rest = args.drop_last();
        assert(keys_distinct(rest));
        lemma_arguments_readable(attrs, rest);
        let prev = with_arguments(attrs, rest);
        let (last_i, last_v) = args.last();
        lemma_insert_distinct(prev, argument_key(last_i), last_v);
        assert forall|k: int| 0 <= k < args.len() implies assoc_get(
            with_arguments(attrs, args),
            argument_key(#[trigger] args[k].0),
        ) == Some(args[k].1) by {
            if k == args.len() - 1 {
                lemma_get_after_insert(prev, argument_key(last_i), last_v, argument_key(last_i));
            } else {
                assert(args[k] == rest[k]);
                assert(args[k].0 != last_i);
                lemma_argument_keys_differ(args[k].0, last_i);
                lemma_get_after_insert(prev, argument_key(last_i), last_v, argument_key(args[k].0));
            }
        }
    }
}

/// Every argument of an entry is a log attribute of its record, under the
/// key "arg.<index>", whatever the context holds.
pub proof fn law_arguments_in_log_attributes(e: LogEntry, plc_text: String)
    requires
        keys_distinct(e.context@),
        keys_distinct(e.arguments@),
    ensures
        forall|k: int|
            0 <= k < e.arguments@.len() ==> assoc_get(
                log_attributes_of(e, plc_text),
                argument_key(#[trigger] e.arguments@[k].0),
            ) == Some(e.arguments@[k].1),
{
    law_standard_log_attributes(e, plc_text);
    let l0 = e.context@;
    let l1 = assoc_insert(l0, "plc.timestamp"@, Value::String(plc_text));
    let l2 = assoc_insert(
        l1,
        "task.cycle"@,
        Value::Number(Number::PosInt(e.task_cycle_counter as u64)),
    );
    let l3 = assoc_insert(
        l2,
        "online.changes"@,
        Value::Number(Number::PosInt(e.online_change_count as u64)),
    );
    let l4 = assoc_insert(l3, "source.address"@, Value::String(e.source));
    lemma_insert_distinct(l0, "plc.timestamp"@, Value::String(plc_text));
    lemma_insert_distinct(l1, "task.cycle"@, Value::Number(Number::PosInt(e.task_cycle_counter as u64)));
    lemma_insert_distinct(
        l2,
        "online.changes"@,
        Value::Number(Number::PosInt(e.online_change_count as u64)),
    );
    lemma_insert_distinct(l3, "source.address"@, Value::String(e.source));
    lemma_arguments_readable(l4, e.arguments@);
}

} // verus!
