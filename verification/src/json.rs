//! JSON-shaped values, as log entries and records carry them, and their
//! plain-text rendering used when a message template is filled in.

use vstd::prelude::*;
use crate::text::{
    append_chars, decimal, i64_to_decimal, signed_decimal, str_to_chars,
    u64_to_decimal,
};

verus! {

/// A JSON number. `PosInt` holds non-negative integers and `NegInt` negative
/// ones; `Float` holds a finite floating-point number by its JSON text.
#[derive(Debug, Clone, PartialEq)]
pub enum Number {
    PosInt(u64),
    NegInt(i64),
    Float(String),
}

/// A JSON value. Object members keep their order.
#[derive(Debug, PartialEq)]
pub enum Value {
    Null,
    Bool(bool),
    Number(Number),
    String(String),
    Array(Vec<Value>),
    Object(Vec<(String, Value)>),
}

impl View for Value {
    type V = Value;

    open spec fn view(&self) -> Value {
        *self
    }
}

/// Text of a number: decimal for integers, the stored text for floats.
pub open spec fn number_text(n: Number) -> Seq<char> {
    match n {
        Number::PosInt(u) => decimal(u as nat),
        Number::NegInt(i) => signed_decimal(i as int),
        Number::Float(s) => s@,
    }
}

/// Plain text of a value: `null`, `true`/`false`, the number, the string
/// itself, `[a, b]` for arrays and `{k=v, k2=v2}` for objects.
pub open spec fn value_text(v: Value) -> Seq<char>
    decreases v,
{
    match v {
        Value::Null => "null"@,
        Value::Bool(b) => if b {
            "true"@
        } else {
            "false"@
        },
        Value::Number(n) => number_text(n),
        Value::String(s) => s@,
        Value::Array(items) => "["@ + items_text(items@) + "]"@,
        Value::Object(members) => "{"@ + members_text(members@) + "}"@,
    }
}

/// Texts of array items joined by ", ".
pub open spec fn items_text(items: Seq<Value>) -> Seq<char>
    decreases items,
{
    if items.len() == 0 {
        seq![]
    } else if items.len() == 1 {
        value_text(items[0])
    } else {
        items_text(items.drop_last()) + ", "@ + value_text(items.last())
    }
}

/// "key=value" texts of object members joined by ", ".
pub open spec fn members_text(members: Seq<(String, Value)>) -> Seq<char>
    decreases members,
{
    if members.len() == 0 {
        seq![]
    } else if members.len() == 1 {
        members[0].0@ + "="@ + value_text(members[0].1)
    } else {
        members_text(members.drop_last()) + ", "@ + members.last().0@ + "="@ + value_text(
            members.last().1,
        )
    }
}

/// The plain text of a value.
pub fn value_to_chars(v: &Value) -> (out: Vec<char>)
    ensures
        out@ == value_text(*v),
    decreases v,
{
    match v {
        Value::Null => str_to_chars("null"),
        Value::Bool(b) => if *b {
            str_to_chars("true")
        } else {
            str_to_chars("false")
        },
        Value::Number(n) => match n {
            Number::PosInt(u) => u64_to_decimal(*u),
            Number::NegInt(i) => i64_to_decimal(*i),
            Number::Float(s) => str_to_chars(s.as_str()),
        },
        Value::String(s) => str_to_chars(s.as_str()),
        Value::Array(items) => {
            let mut out = str_to_chars("[");
            let ghost open_text = out@;
            let mut i: usize = 0;
            while i < items.len()
                invariant
                    i <= items@.len(),
                    *v == Value::Array(*items),
                    open_text == "["@,
                    out@ == open_text + items_text(items@.take(i as int)),
                decreases items.len() - i,
            {
                proof {
                    assert(decreases_to!(*v => v->Array_0));
                    assert(v->Array_0 == *items);
                    assert(decreases_to!(*items => items@));
                    assert(decreases_to!(items@ => items@[i as int]));
                }
                let part = value_to_chars(&items[i]);
                if i > 0 {
                    append_chars(&mut out, &str_to_chars(", "));
                }
                append_chars(&mut out, &part);
                proof {
                    assert(items@.take(i + 1).drop_last() =~= items@.take(i as int));
                    if i == 0 {
                        assert(items@.take(1) =~= seq![items@[0]]);
                        assert(items@.take(0) =~= Seq::<Value>::empty());
                    }
                }
                i = i + 1;
            }
            assert(items@.take(items@.len() as int) =~= items@);
            append_chars(&mut out, &str_to_chars("]"));
            out
        },
        Value::Object(members) => {
            let mut out = str_to_chars("{");
            let ghost open_text = out@;
            let mut i: usize = 0;
            while i < members.len()
                invariant
                    i <= members@.len(),
                    *v == Value::Object(*members),
                    open_text == "{"@,
                    out@ == open_text + members_text(members@.take(i as int)),
                decreases members.len() - i,
            {
                proof {
                    assert(decreases_to!(*v => v->Object_0));
                    assert(v->Object_0 == *members);
                    assert(decreases_to!(*members => members@));
                    assert(decreases_to!(members@ => members@[i as int]));
                    assert(decreases_to!(members@[i as int] => members@[i as int].1));
                }
                let part = value_to_chars(&members[i].1);
                if i > 0 {
                    append_chars(&mut out, &str_to_chars(", "));
                }
                append_chars(&mut out, &str_to_chars(members[i].0.as_str()));
                append_chars(&mut out, &str_to_chars("="));
                append_chars(&mut out, &part);
                proof {
                    assert(members@.take(i + 1).drop_last() =~= members@.take(i as int));
                    if i == 0 {
                        assert(members@.take(1) =~= seq![members@[0]]);
                        assert(members@.take(0) =~= Seq::<(String, Value)>::empty());
                    }
                }
                i = i + 1;
            }
            assert(members@.take(members@.len() as int) =~= members@);
            append_chars(&mut out, &str_to_chars("}"));
            out
        },
    }
}

} // verus!
