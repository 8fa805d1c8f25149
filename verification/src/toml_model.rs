//! TOML documents as the `toml` crate parses them, and the few reads the
//! library makes of them. A parsed value is opaque; its contents are named
//! by [`toml_tree`], a map from node paths to node kinds, and every read
//! below is stated over that map.
use vstd::prelude::*;

verus! {

#[verifier::external_type_specification]
#[verifier::external_body]
pub struct ExTomlValue(toml::Value);

/// One step of a path into a TOML value.
pub enum TomlSeg {
    /// A key of a table.
    Key(Seq<char>),
    /// A position in an array.
    Index(nat),
}

/// What sits at one path of a TOML value.
pub enum TomlNode {
    Str(Seq<char>),
    Int(int),
    /// A float, by the bits of its value.
    Float(u64),
    Bool(bool),
    /// A date-time, by its rendered text.
    Datetime(Seq<char>),
    /// An array with this many elements.
    Array(nat),
    Table,
}

/// Contents of a TOML value: each node keyed by its path from the value.
pub uninterp spec fn toml_tree(v: toml::Value) -> Map<Seq<TomlSeg>, TomlNode>;

/// A TOML document as parsed from `text`, or the parser's message.
pub uninterp spec fn toml_document(text: Seq<char>) -> Result<Map<Seq<TomlSeg>, TomlNode>, Seq<char>>;

/// The node at the root of a tree.
pub open spec fn tree_root(t: Map<Seq<TomlSeg>, TomlNode>) -> Option<TomlNode> {
    if t.contains_key(Seq::empty()) {
        Some(t[Seq::empty()])
    } else {
        None
    }
}

/// The subtree under one path step.
pub open spec fn subtree(t: Map<Seq<TomlSeg>, TomlNode>, seg: TomlSeg) -> Map<Seq<TomlSeg>, TomlNode> {
    Map::new(|p: Seq<TomlSeg>| t.contains_key(seq![seg] + p), |p: Seq<TomlSeg>| t[seq![seg] + p])
}

/// The tree is a table holding `key`.
pub open spec fn has_key(t: Map<Seq<TomlSeg>, TomlNode>, key: Seq<char>) -> bool {
    tree_root(t) == Some(TomlNode::Table) && t.contains_key(seq![TomlSeg::Key(key)])
}

/// Text a string-typed read yields: a string, or a date-time's rendering.
pub open spec fn node_text(n: Option<TomlNode>) -> Option<Seq<char>> {
    match n {
        Some(TomlNode::Str(s)) => Some(s),
        Some(TomlNode::Datetime(s)) => Some(s),
        _ => None,
    }
}

/// The strings of an array of strings.
pub open spec fn string_list(t: Map<Seq<TomlSeg>, TomlNode>) -> Option<Seq<Seq<char>>> {
    match tree_root(t) {
        Some(TomlNode::Array(len)) => if forall|i: nat|
            i < len ==> #[trigger] node_text(tree_root(subtree(t, TomlSeg::Index(i)))) is Some {
            Some(
                Seq::new(len, |i: int| node_text(tree_root(subtree(t, TomlSeg::Index(i as nat))))->0),
            )
        } else {
            None
        },
        _ => None,
    }
}

/// Parses a whole TOML document (`toml::from_str::<toml::Value>`); on
/// failure the parser's message is returned. The value is usually a table,
/// but a document whose only key is `toml`'s private date-time key comes
/// back as a date-time, so no claim on the root is made here.
#[verifier::external_body]
pub fn parse_toml_document(text: &str) -> (r: Result<toml::Value, String>)
    ensures
        match toml_document(text@) {
            Ok(t) => r matches Ok(v) && toml_tree(v) == t,
            Err(m) => r matches Err(e) && e@ == m,
        },
{
    match toml::from_str::<toml::Value>(text) {
        Ok(v) => Ok(v),
        Err(e) => Err(e.to_string()),
    }
}

/// `Value::get` with a string key, cloned: the entry of a table, or
/// nothing when the value is not a table or lacks the key.
#[verifier::external_body]
pub fn toml_get(v: &toml::Value, key: &str) -> (r: Option<toml::Value>)
    ensures
        r is Some <==> has_key(toml_tree(*v), key@),
        r matches Some(c) ==> toml_tree(c) == subtree(toml_tree(*v), TomlSeg::Key(key@)),
{
    v.get(key).cloned()
}

/// `Value::is_table`.
#[verifier::external_body]
pub fn toml_is_table(v: &toml::Value) -> (r: bool)
    ensures
        r == (tree_root(toml_tree(*v)) == Some(TomlNode::Table)),
{
    v.is_table()
}

/// `Value::try_into::<String>`: a string, or a date-time's text; any other
/// node is refused with serde's message (whose text is not stated here).
#[verifier::external_body]
pub fn toml_to_string(v: &toml::Value) -> (r: Result<String, String>)
    ensures
        r is Ok <==> node_text(tree_root(toml_tree(*v))) is Some,
        r matches Ok(s) ==> node_text(tree_root(toml_tree(*v))) == Some(s@),
{
    match v.clone().try_into::<String>() {
        Ok(s) => Ok(s),
        Err(e) => Err(e.to_string()),
    }
}

/// `Value::try_into::<Vec<String>>`: an array whose elements all read as
/// strings; otherwise serde's message (whose text is not stated here).
#[verifier::external_body]
pub fn toml_to_string_list(v: &toml::Value) -> (r: Result<Vec<String>, String>)
    ensures
        r is Ok <==> string_list(toml_tree(*v)) is Some,
        r matches Ok(l) ==> string_list(toml_tree(*v)) == Some(l.deep_view()),
{
    match v.clone().try_into::<Vec<String>>() {
        Ok(l) => Ok(l),
        Err(e) => Err(e.to_string()),
    }
}

/// `Value::try_into::<u32>`: an integer within `u32`; otherwise serde's
/// message (whose text is not stated here).
#[verifier::external_body]
pub fn toml_to_u32(v: &toml::Value) -> (r: Result<u32, String>)
    ensures
        r is Ok <==> (tree_root(toml_tree(*v)) matches Some(TomlNode::Int(i)) && 0 <= i <= u32::MAX),
        r matches Ok(n) ==> tree_root(toml_tree(*v)) == Some(TomlNode::Int(n as int)),
{
    match v.clone().try_into::<u32>() {
        Ok(n) => Ok(n),
        Err(e) => Err(e.to_string()),
    }
}

/// `Value::as_array`, cloned: the elements of an array, in order, each
/// exactly as it stands in `v`.
#[verifier::external_body]
pub fn toml_as_array(v: &toml::Value) -> (r: Option<Vec<toml::Value>>)
    ensures
        r is Some <==> tree_root(toml_tree(*v)) matches Some(TomlNode::Array(_)),
        r matches Some(items) ==> tree_root(toml_tree(*v)) == Some(TomlNode::Array(items@.len()))
            && forall|i: int|
            0 <= i < items@.len() ==> toml_tree(#[trigger] items@[i]) == subtree(
                toml_tree(*v),
                TomlSeg::Index(i as nat),
            ),
{
    v.as_array().cloned()
}

/// serde's message for reading `v` as a sequence (`Value::try_into::<Vec<Value>>`),
/// used when `v` is not an array; its text is not stated here.
#[verifier::external_body]
pub fn toml_seq_error(v: &toml::Value) -> (r: String) {
    match v.clone().try_into::<Vec<toml::Value>>() {
        Ok(_) => String::new(),
        Err(e) => e.to_string(),
    }
}

/// serde's message for reading `v` as a table (`Value::try_into::<Table>`),
/// used when `v` is not a table; its text is not stated here.
#[verifier::external_body]
pub fn toml_table_error(v: &toml::Value) -> (r: String) {
    match v.clone().try_into::<toml::Table>() {
        Ok(_) => String::new(),
        Err(e) => e.to_string(),
    }
}

} // verus!

verus! {

/// The keys of a table, in increasing order, each with its value.
pub open spec fn table_entries_ok(t: Map<Seq<TomlSeg>, TomlNode>, es: Seq<(Seq<char>, Map<Seq<TomlSeg>, TomlNode>)>) -> bool {
    &&& forall|i: int| 0 <= i < es.len() ==> has_key(t, (#[trigger] es[i]).0) && es[i].1 == subtree(t, TomlSeg::Key(es[i].0))
    &&& forall|k: Seq<char>| has_key(t, k) ==> exists|i: int| 0 <= i < es.len() && (#[trigger] es[i]).0 == k
    &&& forall|i: int, j: int| 0 <= i < j < es.len() ==> crate::text::str_lt((#[trigger] es[i]).0, (#[trigger] es[j]).0)
}

/// `Value::as_table` walked in order, each entry cloned: the keys in
/// increasing order (a `toml` table is a sorted map) with their values.
#[verifier::external_body]
pub fn toml_table_entries(v: &toml::Value) -> (r: Option<Vec<(String, toml::Value)>>)
    ensures
        r is Some <==> tree_root(toml_tree(*v)) == Some(TomlNode::Table),
        r matches Some(es) ==> table_entries_ok(
            toml_tree(*v),
            Seq::new(es@.len(), |i: int| (es@[i].0@, toml_tree(es@[i].1))),
        ),
{
    v.as_table().map(|t| t.iter().map(|(k, x)| (k.clone(), x.clone())).collect())
}

/// `Value::as_integer`.
#[verifier::external_body]
pub fn toml_as_integer(v: &toml::Value) -> (r: Option<i64>)
    ensures
        r is Some <==> tree_root(toml_tree(*v)) matches Some(TomlNode::Int(_)),
        r matches Some(i) ==> tree_root(toml_tree(*v)) == Some(TomlNode::Int(i as int)),
{
    v.as_integer()
}

/// `std::str::from_utf8`, copied out: the text when `bytes` is UTF-8,
/// otherwise std's message (whose text is not stated here).
#[verifier::external_body]
pub fn utf8_text(bytes: &[u8]) -> (r: Result<String, String>)
    ensures
        r is Ok <==> vstd::utf8::valid_utf8(bytes@),
        r matches Ok(s) ==> s@ == vstd::utf8::decode_utf8(bytes@),
{
    match std::str::from_utf8(bytes) {
        Ok(s) => Ok(s.to_string()),
        Err(e) => Err(e.to_string()),
    }
}

} // verus!
