//! JSON documents read by the `json` crate, held as a tree of the library's
//! own values, and looked up by key.
use vstd::prelude::*;
use crate::init::{JsonFacts, JsonFactsView};
use crate::text::same_text;

verus! {

/// The kind of a JSON value, with its children.
pub enum JsonKind {
    Null,
    /// A string.
    Str(String),
    /// A number; the flag tells whether the `json` crate counts it empty
    /// (a zero mantissa or NaN).
    Number(bool),
    Boolean(bool),
    Array(Vec<JsonNode>),
    /// An object's entries, in order.
    Object(Vec<(String, JsonNode)>),
}

/// A JSON value: its kind and its JSON text as `dump` writes it.
pub struct JsonNode {
    pub kind: JsonKind,
    pub dump: String,
}

#[verifier::external_type_specification]
#[verifier::external_body]
pub struct ExJsonValue(json::JsonValue);

#[verifier::external_type_specification]
#[verifier::external_body]
pub struct ExJsonParseError(json::Error);

/// The value of `v` as a `JsonNode`, one node for one node: each node keeps
/// its kind, the `dump` of the value, its string, its flag from
/// `Number::is_empty`, its boolean, and its elements or entries in order.
#[verifier::external_body]
fn json_node(v: &json::JsonValue) -> JsonNode {
    let kind = match v {
        json::JsonValue::Null => JsonKind::Null,
        json::JsonValue::Short(s) => JsonKind::Str(s.as_str().to_string()),
        json::JsonValue::String(s) => JsonKind::Str(s.clone()),
        json::JsonValue::Number(n) => JsonKind::Number(n.is_empty()),
        json::JsonValue::Boolean(b) => JsonKind::Boolean(*b),
        json::JsonValue::Array(a) => JsonKind::Array(a.iter().map(json_node).collect()),
        json::JsonValue::Object(o) => JsonKind::Object(o.iter().map(|(k, x)| (k.to_string(), json_node(x))).collect()),
    };
    JsonNode { kind, dump: v.dump() }
}

/// What `json::parse` reads from `text`, converted to a `JsonNode`, or none
/// where the text is no JSON.
pub uninterp spec fn parsed_json(text: Seq<char>) -> Option<JsonNode>;

/// `json::parse` on `text`, its value converted to a `JsonNode`. The result
/// depends on the text alone; it is named, not described.
#[verifier::external_body]
fn parse_json(text: &str) -> (res: Result<JsonNode, json::Error>)
    ensures
        res is Ok <==> parsed_json(text@) is Some,
        res matches Ok(j) ==> parsed_json(text@) == Some(j),
{
    let v = json::parse(text)?;
    Ok(json_node(&v))
}

/// The message of a `json` parse error.
#[verifier::external_body]
fn json_error_message(e: &json::Error) -> String {
    e.to_string()
}

/// A text that is no JSON, with the parser's message.
#[derive(Debug)]
pub struct JsonError {
    pub message: String,
}

/// The JSON document that reads `text`; the parser's message where the text
/// is no JSON.
pub fn read_json(text: &str) -> (res: Result<JsonNode, JsonError>)
    ensures
        res is Ok <==> parsed_json(text@) is Some,
        res matches Ok(j) ==> parsed_json(text@) == Some(j),
{
    match parse_json(text) {
        Ok(j) => Ok(j),
        Err(e) => Err(JsonError { message: json_error_message(&e) }),
    }
}

/// The value of the first entry of `entries` under `key`, if any.
pub open spec fn find_member(entries: Seq<(String, JsonNode)>, key: Seq<char>) -> Option<JsonNode>
    decreases entries.len(),
{
    if entries.len() == 0 {
        None
    } else if entries[0].0@ == key {
        Some(entries[0].1)
    } else {
        find_member(entries.drop_first(), key)
    }
}

/// Where no entry has the key, none is found.
pub proof fn lemma_find_member_absent(entries: Seq<(String, JsonNode)>, key: Seq<char>)
    requires
        forall|i: int| 0 <= i < entries.len() ==> #[trigger] entries[i].0@ != key,
    ensures
        find_member(entries, key) is None,
    decreases entries.len(),
{
    if entries.len() > 0 {
        assert(entries[0].0@ != key);
        assert forall|i: int| 0 <= i < entries.drop_first().len() implies #[trigger] entries.drop_first()[i].0@ != key by {
            assert(entries.drop_first()[i] == entries[i + 1]);
        }
        lemma_find_member_absent(entries.drop_first(), key);
    }
}

/// The first entry with the key is the one found.
pub proof fn lemma_find_member_first(entries: Seq<(String, JsonNode)>, key: Seq<char>, i: int)
    requires
        0 <= i < entries.len(),
        entries[i].0@ == key,
        forall|j: int| 0 <= j < i ==> #[trigger] entries[j].0@ != key,
    ensures
        find_member(entries, key) == Some(entries[i].1),
    decreases i,
{
    if i > 0 {
        assert(entries[0].0@ != key);
        assert forall|j: int| 0 <= j < i - 1 implies #[trigger] entries.drop_first()[j].0@ != key by {
            assert(entries.drop_first()[j] == entries[j + 1]);
        }
        lemma_find_member_first(entries.drop_first(), key, i - 1);
    }
}

/// `v[key]`: the member of an object under `key`; none (which reads as null)
/// for a missing key, for a value that is no object, and for a missing value.
pub open spec fn member(v: Option<JsonNode>, key: Seq<char>) -> Option<JsonNode> {
    match v {
        Some(n) => match n.kind {
            JsonKind::Object(entries) => find_member(entries@, key),
            _ => None,
        },
        None => None,
    }
}

/// Whether the `json` crate counts a value empty: null, an empty string, an
/// empty number, `false`, an empty array or an empty object.
pub open spec fn json_is_empty(n: JsonNode) -> bool {
    match n.kind {
        JsonKind::Null => true,
        JsonKind::Str(s) => s@.len() == 0,
        JsonKind::Number(empty) => empty,
        JsonKind::Boolean(b) => !b,
        JsonKind::Array(items) => items@.len() == 0,
        JsonKind::Object(entries) => entries@.len() == 0,
    }
}

/// What is read of a value: whether it is empty, whether it is null, and its
/// JSON text; a missing value reads as null.
pub open spec fn facts_of(v: Option<JsonNode>) -> JsonFactsView {
    match v {
        Some(n) => (json_is_empty(n), n.kind is Null, n.dump@),
        None => (true, true, "null"@),
    }
}

/// The value of the first entry of `entries` under `key`, if any.
fn find_member_in<'a>(entries: &'a Vec<(String, JsonNode)>, key: &str) -> (r: Option<&'a JsonNode>)
    ensures
        match r {
            Some(n) => find_member(entries@, key@) == Some(*n),
            None => find_member(entries@, key@) is None,
        },
{
    let mut i: usize = 0;
    assert(entries@.skip(0) =~= entries@);
    while i < entries.len()
        invariant
            i <= entries@.len(),
            find_member(entries@, key@) == find_member(entries@.skip(i as int), key@),
        decreases entries@.len() - i,
    {
        let ghost rest = entries@.skip(i as int);
        assert(rest[0] == entries@[i as int]);
        if same_text(entries[i].0.as_str(), key) {
            return Some(&entries[i].1);
        }
        assert(rest.drop_first() =~= entries@.skip(i + 1));
        i = i + 1;
    }
    assert(entries@.skip(i as int) =~= Seq::<(String, JsonNode)>::empty());
    None
}

/// `v[key]`, as `member` reads it.
pub fn member_of<'a>(v: Option<&'a JsonNode>, key: &str) -> (r: Option<&'a JsonNode>)
    ensures
        match r {
            Some(n) => member(
                match v {
                    Some(x) => Some(*x),
                    None => None,
                },
                key@,
            ) == Some(*n),
            None => member(
                match v {
                    Some(x) => Some(*x),
                    None => None,
                },
                key@,
            ) is None,
        },
{
    match v {
        Some(n) => match &n.kind {
            JsonKind::Object(entries) => find_member_in(entries, key),
            _ => None,
        },
        None => None,
    }
}

/// What is read of a value, as `facts_of` reads it.
pub fn facts(v: Option<&JsonNode>) -> (f: JsonFacts)
    ensures
        f@ == facts_of(
            match v {
                Some(x) => Some(*x),
                None => None,
            },
        ),
{
    match v {
        Some(n) => {
            let is_empty = match &n.kind {
                JsonKind::Null => true,
                JsonKind::Str(s) => s.as_str().is_empty(),
                JsonKind::Number(empty) => *empty,
                JsonKind::Boolean(b) => !*b,
                JsonKind::Array(items) => items.len() == 0,
                JsonKind::Object(entries) => entries.len() == 0,
            };
            let is_null = match &n.kind {
                JsonKind::Null => true,
                _ => false,
            };
            JsonFacts { is_empty, is_null, dump: n.dump.clone() }
        },
        None => JsonFacts { is_empty: true, is_null: true, dump: "null".to_owned() },
    }
}

} // verus!
