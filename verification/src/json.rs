//! JSON text and dynamic values. The parser and the printer are those of
//! `serde_json`; this module states what is taken from them and converts,
//! verified, between their value tree and `DynamicValue`.

use crate::error::BridgeError;
use crate::error::ConversionFault;
use crate::error::ErrorKind;
use crate::value::DynamicValue;
use crate::value::Json;
use crate::value::Member;
use vstd::prelude::*;

verus! {

/// `serde_json::Value`, the value tree that the parser builds and the
/// printer reads.
#[verifier::external_type_specification]
#[verifier::external_body]
pub struct ExValue(serde_json::Value);

/// `serde_json::Map`, the members of an object. With the feature
/// `preserve_order` it keeps them in insertion order.
#[verifier::external_type_specification]
#[verifier::external_body]
#[verifier::reject_recursive_types(K)]
#[verifier::reject_recursive_types(V)]
pub struct ExMap<K, V>(serde_json::Map<K, V>);

/// `serde_json::Error`, what the parser and the printer fail with.
#[verifier::external_type_specification]
#[verifier::external_body]
pub struct ExError(serde_json::Error);

/// The tree that a `serde_json::Value` holds.
pub uninterp spec fn json_of(value: serde_json::Value) -> Json;

/// The members that a `serde_json::Map` holds, in the order in which it
/// hands them out.
pub uninterp spec fn members_of(map: serde_json::Map<String, serde_json::Value>) -> Seq<Member>;

/// The message that a `serde_json::Error` displays.
pub uninterp spec fn error_text(error: serde_json::Error) -> Seq<char>;

/// What `serde_json::from_str` makes of a text: the tree, or the message of
/// the error.
pub uninterp spec fn parsed(text: Seq<char>) -> Result<Json, Seq<char>>;

/// What `serde_json::to_string_pretty` prints for a tree: the indented
/// text, or the message of the error.
pub uninterp spec fn pretty_text(value: Json) -> Result<Seq<char>, Seq<char>>;

/// What `serde_json::to_string` prints for a tree: the text without white
/// space, or the message of the error.
pub uninterp spec fn compact_text(value: Json) -> Result<Seq<char>, Seq<char>>;

/// The trees of a sequence of `serde_json::Value`.
pub open spec fn trees_of(values: Seq<serde_json::Value>) -> Seq<Json> {
    Seq::new(values.len(), |i: int| json_of(values[i]))
}

/// One of the members has the key.
pub open spec fn has_key(members: Seq<Member>, key: Seq<char>) -> bool {
    exists|i: int| 0 <= i < members.len() && (#[trigger] members[i]).key == key
}

/// One level of a `serde_json::Value`, borrowed.
enum Shape<'a> {
    Null,
    Bool(bool),
    Number(&'a serde_json::Number),
    String(&'a String),
    Array(&'a Vec<serde_json::Value>),
    Object(&'a serde_json::Map<String, serde_json::Value>),
}

/// One level of a `serde_json::Value`, owned.
enum Node {
    Null,
    Bool(bool),
    Number(serde_json::Number),
    String(String),
    Array(Vec<serde_json::Value>),
    Object(serde_json::Map<String, serde_json::Value>),
}

/// `serde_json::from_str` at the type `serde_json::Value`. The result
/// depends on the text alone: `parsed` names it.
#[verifier::external_body]
fn json_from_str(text: &str) -> (r: Result<serde_json::Value, serde_json::Error>)
    ensures
        match r {
            Ok(value) => parsed(text@) == Ok::<Json, Seq<char>>(json_of(value)),
            Err(error) => parsed(text@) == Err::<Json, Seq<char>>(error_text(error)),
        },
{
    serde_json::from_str::<serde_json::Value>(text)
}

/// `serde_json::to_string_pretty` on a `serde_json::Value`. The result
/// depends on the tree alone: `pretty_text` names it.
#[verifier::external_body]
fn json_to_string_pretty(value: &serde_json::Value) -> (r: Result<String, serde_json::Error>)
    ensures
        match r {
            Ok(text) => pretty_text(json_of(*value)) == Ok::<Seq<char>, Seq<char>>(text@),
            Err(error) => pretty_text(json_of(*value)) == Err::<Seq<char>, Seq<char>>(
                error_text(error),
            ),
        },
{
    serde_json::to_string_pretty(value)
}

/// `serde_json::to_string` on a `serde_json::Value`. The result depends on
/// the tree alone: `compact_text` names it.
#[verifier::external_body]
fn json_to_string(value: &serde_json::Value) -> (r: Result<String, serde_json::Error>)
    ensures
        match r {
            Ok(text) => compact_text(json_of(*value)) == Ok::<Seq<char>, Seq<char>>(text@),
            Err(error) => compact_text(json_of(*value)) == Err::<Seq<char>, Seq<char>>(
                error_text(error),
            ),
        },
{
    serde_json::to_string(value)
}

/// `ToString::to_string` of a `serde_json::Error`: the message that the
/// error displays.
#[verifier::external_body]
fn json_error_message(error: &serde_json::Error) -> (r: String)
    ensures
        r@ == error_text(*error),
{
    error.to_string()
}

/// Opens one level of a `serde_json::Value`: tells its six variants apart
/// and borrows what the variant holds.
#[verifier::external_body]
fn value_shape(value: &serde_json::Value) -> (r: Shape<'_>)
    ensures
        json_of(*value) == (match r {
            Shape::Null => Json::Null,
            Shape::Bool(b) => Json::Bool(b),
            Shape::Number(n) => Json::Number(*n),
            Shape::String(s) => Json::String(s@),
            Shape::Array(items) => Json::Array(trees_of(items@)),
            Shape::Object(map) => Json::Object(members_of(*map)),
        }),
{
    match value {
        serde_json::Value::Null => Shape::Null,
        serde_json::Value::Bool(b) => Shape::Bool(*b),
        serde_json::Value::Number(n) => Shape::Number(n),
        serde_json::Value::String(s) => Shape::String(s),
        serde_json::Value::Array(items) => Shape::Array(items),
        serde_json::Value::Object(map) => Shape::Object(map),
    }
}

/// Closes one level of a `serde_json::Value`: builds the variant from what
/// it holds.
#[verifier::external_body]
fn value_from(node: Node) -> (r: serde_json::Value)
    ensures
        json_of(r) == (match node {
            Node::Null => Json::Null,
            Node::Bool(b) => Json::Bool(b),
            Node::Number(n) => Json::Number(n),
            Node::String(s) => Json::String(s@),
            Node::Array(items) => Json::Array(trees_of(items@)),
            Node::Object(map) => Json::Object(members_of(map)),
        }),
{
    match node {
        Node::Null => serde_json::Value::Null,
        Node::Bool(b) => serde_json::Value::Bool(b),
        Node::Number(n) => serde_json::Value::Number(n),
        Node::String(s) => serde_json::Value::String(s),
        Node::Array(items) => serde_json::Value::Array(items),
        Node::Object(map) => serde_json::Value::Object(map),
    }
}

/// `serde_json::Map::iter`, collected: the members in the map's order, each
/// key once.
#[verifier::external_body]
fn map_entries(map: &serde_json::Map<String, serde_json::Value>) -> (r: Vec<
    (&String, &serde_json::Value),
>)
    ensures
        r@.len() == members_of(*map).len(),
        forall|i: int|
            0 <= i < r@.len() ==> (#[trigger] members_of(*map)[i]) == (Member {
                key: r@[i].0@,
                value: json_of(*r@[i].1),
            }),
        forall|i: int, j: int|
            #![trigger r@[i], r@[j]]
            0 <= i < j < r@.len() ==> r@[i].0@ != r@[j].0@,
{
    map.iter().collect()
}

/// `serde_json::Map::new`: a map without members.
pub assume_specification[ serde_json::Map::<String, serde_json::Value>::new ]() -> (r:
    serde_json::Map<String, serde_json::Value>)
    ensures
        members_of(r) == Seq::<Member>::empty(),
;

/// `serde_json::Map::insert`, with the feature `preserve_order`. A new key
/// goes to the end and nothing is returned. A key that the map has keeps its
/// place, takes the new value and the old value is returned.
pub assume_specification[ serde_json::Map::<String, serde_json::Value>::insert ](
    map: &mut serde_json::Map<String, serde_json::Value>,
    k: String,
    v: serde_json::Value,
) -> (r: Option<serde_json::Value>)
    ensures
        r is None <==> !has_key(members_of(*old(map)), k@),
        r is None ==> members_of(*final(map)) == members_of(*old(map)).push(
            Member { key: k@, value: json_of(v) },
        ),
        r matches Some(previous) ==> exists|i: int|
            0 <= i < members_of(*old(map)).len() && (#[trigger] members_of(*old(map))[i])
                == (Member { key: k@, value: json_of(previous) }) && members_of(*final(map))
                == members_of(*old(map)).update(i, Member { key: k@, value: json_of(v) }),
;

/// The dynamic value with the tree of a `serde_json::Value`.
pub fn from_json(value: &serde_json::Value) -> (r: DynamicValue)
    ensures
        r@ == json_of(*value),
        r.wf(),
    decreases json_of(*value),
{
    match value_shape(value) {
        Shape::Null => DynamicValue::Null,
        Shape::Bool(b) => DynamicValue::Bool(b),
        Shape::Number(n) => DynamicValue::Number(n.clone()),
        Shape::String(s) => DynamicValue::String(s.clone()),
        Shape::Array(items) => {
            let mut out: Vec<DynamicValue> = Vec::new();
            let mut i: usize = 0;
            while i < items.len()
                invariant
                    i <= items.len(),
                    out@.len() == i,
                    json_of(*value) == Json::Array(trees_of(items@)),
                    forall|k: int|
                        0 <= k < i ==> (#[trigger] out@[k])@ == json_of(items@[k]) && out@[k].wf(),
                decreases items.len() - i,
            {
                proof {
                    let trees = trees_of(items@);
                    assert(decreases_to!(json_of(*value) => json_of(*value)->Array_0));
                    assert(decreases_to!(trees => trees[i as int]));
                }
                out.push(from_json(&items[i]));
                i += 1;
            }
            let r = DynamicValue::Array(out);
            proof {
                assert(r@->Array_0 =~= trees_of(items@));
                assert forall|k: int| 0 <= k < r@->Array_0.len() implies (
                #[trigger] r@->Array_0[k]).wf() by {}
            }
            r
        },
        Shape::Object(map) => {
            let entries = map_entries(map);
            let mut out: Vec<(String, DynamicValue)> = Vec::new();
            let mut i: usize = 0;
            while i < entries.len()
                invariant
                    i <= entries.len(),
                    out@.len() == i,
                    json_of(*value) == Json::Object(members_of(*map)),
                    entries@.len() == members_of(*map).len(),
                    forall|k: int|
                        0 <= k < entries@.len() ==> (#[trigger] members_of(*map)[k]) == (Member {
                            key: entries@[k].0@,
                            value: json_of(*entries@[k].1),
                        }),
                    forall|k: int|
                        0 <= k < i ==> (#[trigger] out@[k]).0@ == entries@[k].0@ && out@[k].1@
                            == json_of(*entries@[k].1) && out@[k].1.wf(),
                decreases entries.len() - i,
            {
                proof {
                    let members = members_of(*map);
                    assert(decreases_to!(json_of(*value) => json_of(*value)->Object_0));
                    assert(decreases_to!(members[i as int] => members[i as int].value));
                }
                let key = entries[i].0.clone();
                let member = from_json(entries[i].1);
                out.push((key, member));
                i += 1;
            }
            let r = DynamicValue::Object(out);
            proof {
                let members = members_of(*map);
                assert(r@->Object_0 =~= members) by {
                    assert forall|k: int| 0 <= k < members.len() implies r@->Object_0[k]
                        == members[k] by {}
                }
                assert forall|a: int, b: int| 0 <= a < b < members.len() implies members[a].key
                    != members[b].key by {}
                assert forall|k: int| 0 <= k < members.len() implies (
                #[trigger] members[k]).value.wf() by {}
            }
            r
        },
    }
}

/// The `serde_json::Value` with the tree of a dynamic value. An object that
/// names a key twice has none.
pub fn to_json(value: &DynamicValue) -> (r: Result<serde_json::Value, ConversionFault>)
    ensures
        match r {
            Ok(json) => value.wf() && json_of(json) == value@,
            Err(fault) => !value.wf() && fault == ConversionFault::DuplicateKey,
        },
    decreases value,
{
    match value {
        DynamicValue::Null => Ok(value_from(Node::Null)),
        DynamicValue::Bool(b) => Ok(value_from(Node::Bool(*b))),
        DynamicValue::Number(n) => Ok(value_from(Node::Number(n.clone()))),
        DynamicValue::String(s) => Ok(value_from(Node::String(s.clone()))),
        DynamicValue::Array(items) => {
            let mut out: Vec<serde_json::Value> = Vec::new();
            let mut i: usize = 0;
            while i < items.len()
                invariant
                    i <= items.len(),
                    out@.len() == i,
                    *value == DynamicValue::Array(*items),
                    forall|k: int| 0 <= k < i ==> json_of(#[trigger] out@[k]) == items@[k]@,
                    forall|k: int| 0 <= k < i ==> (#[trigger] items@[k]).wf(),
                decreases items.len() - i,
            {
                match to_json(&items[i]) {
                    Ok(json) => {
                        out.push(json);
                    },
                    Err(fault) => {
                        assert(!value@->Array_0[i as int].wf());
                        return Err(fault);
                    },
                }
                i += 1;
            }
            proof {
                assert(trees_of(out@) =~= value@->Array_0);
                assert forall|k: int| 0 <= k < value@->Array_0.len() implies (
                #[trigger] value@->Array_0[k]).wf() by {}
            }
            Ok(value_from(Node::Array(out)))
        },
        DynamicValue::Object(members) => {
            let mut map = serde_json::Map::new();
            let mut i: usize = 0;
            while i < members.len()
                invariant
                    i <= members.len(),
                    *value == DynamicValue::Object(*members),
                    members_of(map) =~= value@->Object_0.take(i as int),
                    forall|a: int, b: int|
                        #![trigger value@->Object_0[a], value@->Object_0[b]]
                        0 <= a < b < i ==> value@->Object_0[a].key != value@->Object_0[b].key,
                    forall|k: int| 0 <= k < i ==> (#[trigger] value@->Object_0[k]).value.wf(),
                decreases members.len() - i,
            {
                let json = match to_json(&members[i].1) {
                    Ok(json) => json,
                    Err(fault) => {
                        assert(!value@->Object_0[i as int].value.wf());
                        return Err(fault);
                    },
                };
                let ghost before = members_of(map);
                let previous = map.insert(members[i].0.clone(), json);
                if previous.is_some() {
                    proof {
                        let all = value@->Object_0;
                        let j = choose|j: int|
                            0 <= j < before.len() && (#[trigger] before[j]).key
                                == members@[i as int].0@;
                        assert(all[j].key == all[i as int].key);
                    }
                    return Err(ConversionFault::DuplicateKey);
                }
                proof {
                    let all = value@->Object_0;
                    assert forall|a: int| 0 <= a < i implies (#[trigger] all[a]).key
                        != all[i as int].key by {
                        assert(before[a].key == all[a].key);
                    }
                }
                i += 1;
            }
            proof {
                let all = value@->Object_0;
                assert(all.take(i as int) =~= all);
            }
            Ok(value_from(Node::Object(map)))
        },
    }
}

/// What printing a value comes to: a value that is no tree of mappings is
/// refused before anything is printed, and any other gives what the printer
/// gave.
pub open spec fn printed(value: Json, text: Result<Seq<char>, Seq<char>>) -> Result<
    Seq<char>,
    Seq<char>,
> {
    if value.wf() {
        text
    } else {
        Err(ConversionFault::DuplicateKey.text())
    }
}

/// The parse failure with the message of a `serde_json::Error`.
pub fn parse_failure(error: &serde_json::Error) -> (r: BridgeError)
    ensures
        r.kind == ErrorKind::Parse,
        r.message@ == error_text(*error),
{
    BridgeError { kind: ErrorKind::Parse, message: json_error_message(error) }
}

/// The conversion failure with the message of a `serde_json::Error`.
pub fn print_failure(error: &serde_json::Error) -> (r: BridgeError)
    ensures
        r.kind == ErrorKind::Conversion,
        r.message@ == error_text(*error),
{
    BridgeError { kind: ErrorKind::Conversion, message: json_error_message(error) }
}

/// The conversion failure that names a fault.
pub fn conversion_failure(fault: ConversionFault) -> (r: BridgeError)
    ensures
        r.kind == ErrorKind::Conversion,
        r.message@ == fault.text(),
{
    BridgeError { kind: ErrorKind::Conversion, message: fault.describe() }
}

/// Parses JSON text into a dynamic value. A text that is not well-formed
/// JSON is a parse failure with the parser's message.
pub fn parse(text: &str) -> (r: Result<DynamicValue, BridgeError>)
    ensures
        match r {
            Ok(value) => parsed(text@) == Ok::<Json, Seq<char>>(value@) && value.wf(),
            Err(e) => e.kind == ErrorKind::Parse && parsed(text@) == Err::<Json, Seq<char>>(
                e.message@,
            ),
        },
{
    match json_from_str(text) {
        Ok(json) => Ok(from_json(&json)),
        Err(error) => Err(parse_failure(&error)),
    }
}

/// Renders a dynamic value as indented JSON text, the form in which values
/// are stored.
pub fn serialize(value: &DynamicValue) -> (r: Result<String, BridgeError>)
    ensures
        match r {
            Ok(text) => printed(value@, pretty_text(value@)) == Ok::<Seq<char>, Seq<char>>(text@),
            Err(e) => e.kind == ErrorKind::Conversion && printed(value@, pretty_text(value@))
                == Err::<Seq<char>, Seq<char>>(e.message@),
        },
{
    match to_json(value) {
        Ok(json) => match json_to_string_pretty(&json) {
            Ok(text) => Ok(text),
            Err(error) => Err(print_failure(&error)),
        },
        Err(fault) => Err(conversion_failure(fault)),
    }
}

/// Renders a dynamic value as JSON text without white space, the form in
/// which values are sent.
pub fn serialize_compact(value: &DynamicValue) -> (r: Result<String, BridgeError>)
    ensures
        match r {
            Ok(text) => printed(value@, compact_text(value@)) == Ok::<Seq<char>, Seq<char>>(
                text@,
            ),
            Err(e) => e.kind == ErrorKind::Conversion && printed(value@, compact_text(value@))
                == Err::<Seq<char>, Seq<char>>(e.message@),
        },
{
    match to_json(value) {
        Ok(json) => match json_to_string(&json) {
            Ok(text) => Ok(text),
            Err(error) => Err(print_failure(&error)),
        },
        Err(fault) => Err(conversion_failure(fault)),
    }
}

} // verus!
