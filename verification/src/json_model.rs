//! JSON values as `serde_json` parses them, and the reads the library
//! makes of them. A parsed value is opaque; [`json_of`] names its shape.
use vstd::prelude::*;

verus! {

#[verifier::external_type_specification]
#[verifier::external_body]
pub struct ExJsonValue(serde_json::Value);

/// The kind of a JSON value.
#[derive(Debug, Clone, Copy, PartialEq, Eq, Structural)]
pub enum JsonKind {
    Null,
    Boolean,
    Number,
    Str,
    Array,
    Object,
}

/// An element of an array, by its kind and, for a string, its text.
pub enum JsonLeaf {
    Null,
    Bool(bool),
    Number,
    Str(Seq<char>),
    Array,
    Object,
}

/// A JSON value: its kind, a string's text, an array's elements.
pub enum JsonNode {
    Null,
    Bool(bool),
    Number,
    Str(Seq<char>),
    Array(Seq<JsonLeaf>),
    Object,
}

/// The shape of a parsed value.
pub uninterp spec fn json_of(v: serde_json::Value) -> JsonNode;

/// The value `serde_json::from_str` reads from `text`, or its message.
pub uninterp spec fn json_document(text: Seq<char>) -> Result<JsonNode, Seq<char>>;

pub open spec fn node_kind(n: JsonNode) -> JsonKind {
    match n {
        JsonNode::Null => JsonKind::Null,
        JsonNode::Bool(_) => JsonKind::Boolean,
        JsonNode::Number => JsonKind::Number,
        JsonNode::Str(_) => JsonKind::Str,
        JsonNode::Array(_) => JsonKind::Array,
        JsonNode::Object => JsonKind::Object,
    }
}

pub open spec fn leaf_kind(n: JsonLeaf) -> JsonKind {
    match n {
        JsonLeaf::Null => JsonKind::Null,
        JsonLeaf::Bool(_) => JsonKind::Boolean,
        JsonLeaf::Number => JsonKind::Number,
        JsonLeaf::Str(_) => JsonKind::Str,
        JsonLeaf::Array => JsonKind::Array,
        JsonLeaf::Object => JsonKind::Object,
    }
}

/// A value seen as an element of an array.
pub open spec fn as_leaf(n: JsonNode) -> JsonLeaf {
    match n {
        JsonNode::Null => JsonLeaf::Null,
        JsonNode::Bool(b) => JsonLeaf::Bool(b),
        JsonNode::Number => JsonLeaf::Number,
        JsonNode::Str(s) => JsonLeaf::Str(s),
        JsonNode::Array(_) => JsonLeaf::Array,
        JsonNode::Object => JsonLeaf::Object,
    }
}

/// `serde_json::from_str::<Value>`; on failure the parser's message.
#[verifier::external_body]
pub fn json_parse(text: &str) -> (r: Result<serde_json::Value, String>)
    ensures
        match json_document(text@) {
            Ok(n) => r matches Ok(v) && json_of(v) == n,
            Err(m) => r matches Err(e) && e@ == m,
        },
{
    match serde_json::from_str::<serde_json::Value>(text) {
        Ok(v) => Ok(v),
        Err(e) => Err(e.to_string()),
    }
}

/// Which variant of `serde_json::Value` `v` is.
#[verifier::external_body]
pub fn json_kind(v: &serde_json::Value) -> (k: JsonKind)
    ensures
        k == node_kind(json_of(*v)),
{
    match v {
        serde_json::Value::Null => JsonKind::Null,
        serde_json::Value::Bool(_) => JsonKind::Boolean,
        serde_json::Value::Number(_) => JsonKind::Number,
        serde_json::Value::String(_) => JsonKind::Str,
        serde_json::Value::Array(_) => JsonKind::Array,
        serde_json::Value::Object(_) => JsonKind::Object,
    }
}

/// `Value::as_array`, cloned: the elements of an array, in order.
#[verifier::external_body]
pub fn json_array_items(v: &serde_json::Value) -> (r: Option<Vec<serde_json::Value>>)
    ensures
        r is Some <==> json_of(*v) is Array,
        r matches Some(items) ==> json_of(*v) matches JsonNode::Array(ls) && items@.len() == ls.len()
            && forall|i: int| 0 <= i < ls.len() ==> as_leaf(json_of(#[trigger] items@[i])) == ls[i],
{
    v.as_array().cloned()
}

/// `Value::as_str`, copied out: the text of a string.
#[verifier::external_body]
pub fn json_as_string(v: &serde_json::Value) -> (r: Option<String>)
    ensures
        r is Some <==> json_of(*v) is Str,
        r matches Some(s) ==> json_of(*v) == JsonNode::Str(s@),
{
    v.as_str().map(|s| s.to_string())
}

} // verus!
