//! A TOML document as the library's own tree, for the rewrites the
//! overlay makes. Floats and date-times are carried through unread.
use vstd::prelude::*;
use crate::text::str_eq;
use crate::toml_model::{subtree, toml_tree, tree_root, TomlNode, TomlSeg};

verus! {

/// A TOML value.
#[derive(Debug)]
pub enum Toml {
    Str(String),
    Int(i64),
    Bool(bool),
    Array(Vec<Toml>),
    Table(Vec<(String, Toml)>),
    /// A float or a date-time, as the parser produced it.
    Other(toml::Value),
}

/// A TOML value as plain sequences.
pub enum TomlV {
    Str(Seq<char>),
    Int(int),
    Bool(bool),
    Array(Seq<TomlV>),
    Table(Seq<(Seq<char>, TomlV)>),
    Other(toml::Value),
}

impl Toml {
    pub open spec fn view_toml(&self) -> TomlV
        decreases self,
    {
        match self {
            Toml::Str(s) => TomlV::Str(s@),
            Toml::Int(i) => TomlV::Int(*i as int),
            Toml::Bool(b) => TomlV::Bool(*b),
            Toml::Array(items) => TomlV::Array(
                Seq::new(
                    items@.len(),
                    |i: int|
                        if 0 <= i < items@.len() {
                            items@[i].view_toml()
                        } else {
                            TomlV::Bool(false)
                        },
                ),
            ),
            Toml::Table(es) => TomlV::Table(
                Seq::new(
                    es@.len(),
                    |i: int|
                        if 0 <= i < es@.len() {
                            (es@[i].0@, es@[i].1.view_toml())
                        } else {
                            (Seq::empty(), TomlV::Bool(false))
                        },
                ),
            ),
            Toml::Other(v) => TomlV::Other(*v),
        }
    }
}

} // verus!

verus! {

/// Entries of a table as plain sequences.
pub open spec fn tview(es: Seq<(String, Toml)>) -> Seq<(Seq<char>, TomlV)> {
    Seq::new(es.len(), |i: int| (es[i].0@, es[i].1.view_toml()))
}

pub proof fn lemma_table_view(es: Vec<(String, Toml)>)
    ensures
        Toml::Table(es).view_toml() == TomlV::Table(tview(es@)),
{
    let v = Toml::Table(es).view_toml();
    let inner = v->Table_0;
    assert(inner.len() == es@.len());
    assert forall|i: int| 0 <= i < es@.len() implies inner[i] == tview(es@)[i] by {
    }
    assert(inner =~= tview(es@));
}

pub proof fn lemma_array_view(items: Vec<Toml>)
    ensures
        Toml::Array(items).view_toml() == TomlV::Array(Seq::new(items@.len(), |i: int| items@[i].view_toml())),
{
    let v = Toml::Array(items).view_toml();
    let inner = v->Array_0;
    assert(inner =~= Seq::new(items@.len(), |i: int| items@[i].view_toml()));
}

/// Position of the first entry with key `k`, from `i` on.
pub open spec fn tindex(es: Seq<(Seq<char>, TomlV)>, k: Seq<char>, i: int) -> Option<int>
    decreases es.len() - i,
{
    if i < 0 || i >= es.len() {
        None
    } else if es[i].0 == k {
        Some(i)
    } else {
        tindex(es, k, i + 1)
    }
}

/// The value under key `k`.
pub open spec fn tget(es: Seq<(Seq<char>, TomlV)>, k: Seq<char>) -> Option<TomlV> {
    match tindex(es, k, 0) {
        Some(i) => Some(es[i].1),
        None => None,
    }
}

/// The table with key `k` set to `v` (in place when present, else last).
pub open spec fn tput(es: Seq<(Seq<char>, TomlV)>, k: Seq<char>, v: TomlV) -> Seq<(Seq<char>, TomlV)> {
    match tindex(es, k, 0) {
        Some(i) => es.update(i, (k, v)),
        None => es.push((k, v)),
    }
}

/// The table without key `k`.
pub open spec fn tdel(es: Seq<(Seq<char>, TomlV)>, k: Seq<char>) -> Seq<(Seq<char>, TomlV)> {
    match tindex(es, k, 0) {
        Some(i) => es.remove(i),
        None => es,
    }
}

/// The table holds a table under `k`.
pub open spec fn has_table(es: Seq<(Seq<char>, TomlV)>, k: Seq<char>) -> bool {
    tget(es, k) matches Some(TomlV::Table(_))
}

/// The entries of the table under `k` (empty when there is none).
pub open spec fn sub_table(es: Seq<(Seq<char>, TomlV)>, k: Seq<char>) -> Seq<(Seq<char>, TomlV)> {
    match tget(es, k) {
        Some(TomlV::Table(t)) => t,
        _ => Seq::empty(),
    }
}

/// No key occurs twice in a table, at any depth.
pub open spec fn wf(v: TomlV) -> bool
    decreases v,
{
    match v {
        TomlV::Array(items) => forall|i: int| 0 <= i < items.len() ==> wf(#[trigger] items[i]),
        TomlV::Table(es) => wf_table(es),
        _ => true,
    }
}

/// Keys unique and every value well formed.
pub open spec fn wf_table(es: Seq<(Seq<char>, TomlV)>) -> bool
    decreases es,
{
    &&& forall|i: int, j: int| 0 <= i < j < es.len() ==> (#[trigger] es[i]).0 != (#[trigger] es[j]).0
    &&& forall|i: int| 0 <= i < es.len() ==> wf((#[trigger] es[i]).1)
}

pub proof fn lemma_tindex(es: Seq<(Seq<char>, TomlV)>, k: Seq<char>, i: int)
    requires
        0 <= i,
    ensures
        tindex(es, k, i) matches Some(j) ==> i <= j < es.len() && es[j].0 == k && forall|m: int|
            i <= m < j ==> es[m].0 != k,
        tindex(es, k, i) is None ==> forall|m: int| i <= m < es.len() ==> es[m].0 != k,
    decreases es.len() - i,
{
    if i < es.len() && es[i].0 != k {
        lemma_tindex(es, k, i + 1);
    }
}

pub proof fn lemma_tindex_at(es: Seq<(Seq<char>, TomlV)>, k: Seq<char>, i: int, j: int)
    requires
        0 <= i <= j < es.len(),
        es[j].0 == k,
        forall|m: int| i <= m < j ==> es[m].0 != k,
    ensures
        tindex(es, k, i) == Some(j),
    decreases j - i,
{
    if i < j {
        lemma_tindex_at(es, k, i + 1, j);
    }
}

pub proof fn lemma_tindex_none(es: Seq<(Seq<char>, TomlV)>, k: Seq<char>, i: int)
    requires
        0 <= i,
        forall|m: int| i <= m < es.len() ==> es[m].0 != k,
    ensures
        tindex(es, k, i) is None,
    decreases es.len() - i,
{
    if i < es.len() {
        lemma_tindex_none(es, k, i + 1);
    }
}

/// Position of the first entry with key `key`.
pub fn tbl_index(es: &Vec<(String, Toml)>, key: &str) -> (r: Option<usize>)
    ensures
        r is None <==> tindex(tview(es@), key@, 0) is None,
        r matches Some(i) ==> i < es@.len() && tindex(tview(es@), key@, 0) == Some(i as int),
{
    let ghost tv = tview(es@);
    let mut i: usize = 0;
    while i < es.len()
        invariant
            tv == tview(es@),
            i <= es@.len(),
            forall|m: int| 0 <= m < i ==> tv[m].0 != key@,
        decreases es@.len() - i,
    {
        if str_eq(es[i].0.as_str(), key) {
            proof {
                lemma_tindex_at(tv, key@, 0, i as int);
            }
            return Some(i);
        }
        i = i + 1;
    }
    proof {
        lemma_tindex_none(tv, key@, 0);
    }
    None
}

/// Sets `key` to `v`.
pub fn tbl_put(es: &mut Vec<(String, Toml)>, key: String, v: Toml)
    ensures
        tview(final(es)@) == tput(tview(old(es)@), key@, v.view_toml()),
{
    let ghost k = key@;
    let ghost vv = v.view_toml();
    let ghost t0 = tview(es@);
    match tbl_index(es, key.as_str()) {
        Some(i) => {
            assert(tput(t0, k, vv) == t0.update(i as int, (k, vv)));
            es.set(i, (key, v));
            assert(tview(es@) =~= t0.update(i as int, (k, vv)));
        },
        None => {
            assert(tput(t0, k, vv) == t0.push((k, vv)));
            es.push((key, v));
            assert(tview(es@) =~= t0.push((k, vv)));
        },
    }
}

/// Removes `key`, if present.
pub fn tbl_del(es: &mut Vec<(String, Toml)>, key: &str)
    ensures
        tview(final(es)@) == tdel(tview(old(es)@), key@),
{
    let ghost t0 = tview(es@);
    match tbl_index(es, key) {
        Some(i) => {
            assert(tdel(t0, key@) == t0.remove(i as int));
            let _ = es.remove(i);
            assert(tview(es@) =~= t0.remove(i as int));
        },
        None => {
            assert(tdel(t0, key@) == t0);
        },
    }
}

/// Takes the entry at `i` out of the table, to be put back with
/// [`tbl_restore`].
pub fn tbl_take(es: &mut Vec<(String, Toml)>, i: usize) -> (e: (String, Toml))
    requires
        i < old(es)@.len(),
    ensures
        e == old(es)@[i as int],
        final(es)@ == old(es)@.remove(i as int),
{
    es.remove(i)
}

/// Puts an entry back at position `i`.
pub fn tbl_restore(es: &mut Vec<(String, Toml)>, i: usize, e: (String, Toml))
    requires
        i <= old(es)@.len(),
    ensures
        final(es)@ == old(es)@.insert(i as int, e),
{
    es.insert(i, e);
}

pub proof fn lemma_tview_restore(es: Seq<(String, Toml)>, i: int, k: String, v: Toml)
    requires
        0 <= i < es.len(),
        es[i].0 == k,
    ensures
        tview(es.remove(i).insert(i, (k, v))) == tview(es).update(i, (k@, v.view_toml())),
{
    assert(tview(es.remove(i).insert(i, (k, v))) =~= tview(es).update(i, (k@, v.view_toml())));
}

} // verus!

verus! {

/// No later entry has the key of entry `i`.
pub open spec fn last_of_key(es: Seq<(Seq<char>, TomlV)>, i: int) -> bool {
    forall|j: int| i < j < es.len() ==> es[j].0 != es[i].0
}

/// `d` describes the TOML value whose tree is `t` (where a table repeats
/// a key, its last entry is the one the value holds).
pub open spec fn matches_tree(d: TomlV, t: Map<Seq<TomlSeg>, TomlNode>) -> bool
    decreases d,
{
    match d {
        TomlV::Str(s) => t == map![Seq::<TomlSeg>::empty() => TomlNode::Str(s)],
        TomlV::Int(i) => t == map![Seq::<TomlSeg>::empty() => TomlNode::Int(i)],
        TomlV::Bool(b) => t == map![Seq::<TomlSeg>::empty() => TomlNode::Bool(b)],
        TomlV::Other(v) => t == toml_tree(v),
        TomlV::Array(items) => {
            &&& tree_root(t) == Some(TomlNode::Array(items.len()))
            &&& forall|p: Seq<TomlSeg>|
                #![trigger t.contains_key(p)]
                t.contains_key(p) && p.len() > 0 ==> (p[0] matches TomlSeg::Index(n) && n < items.len())
            &&& forall|i: int|
                0 <= i < items.len() ==> matches_tree(#[trigger] items[i], subtree(t, TomlSeg::Index(i as nat)))
        },
        TomlV::Table(es) => {
            &&& tree_root(t) == Some(TomlNode::Table)
            &&& forall|p: Seq<TomlSeg>|
                #![trigger t.contains_key(p)]
                t.contains_key(p) && p.len() > 0 ==> (p[0] matches TomlSeg::Key(k) && tindex(es, k, 0) is Some)
            &&& forall|i: int|
                0 <= i < es.len() && last_of_key(es, i) ==> matches_tree(
                    (#[trigger] es[i]).1,
                    subtree(t, TomlSeg::Key(es[i].0)),
                )
        },
    }
}

/// Converts a parsed `toml::Value` into the library's tree, one node
/// for one node (floats and date-times are kept as they are). Tables of
/// a parsed value hold each key once.
#[verifier::external_body]
pub fn doc_of_value(v: &toml::Value) -> (d: Toml)
    ensures
        matches_tree(d.view_toml(), toml_tree(*v)),
        wf(d.view_toml()),
{
    match v {
        toml::Value::String(s) => Toml::Str(s.clone()),
        toml::Value::Integer(i) => Toml::Int(*i),
        toml::Value::Boolean(b) => Toml::Bool(*b),
        toml::Value::Array(a) => Toml::Array(a.iter().map(doc_of_value).collect()),
        toml::Value::Table(t) => Toml::Table(t.iter().map(|(k, x)| (k.clone(), doc_of_value(x))).collect()),
        other => Toml::Other(other.clone()),
    }
}

/// Converts the library's tree back into a `toml::Value`, one node for
/// one node; a table's entries are inserted into a `toml` map in order.
#[verifier::external_body]
pub fn value_of_doc(d: &Toml) -> (v: toml::Value)
    ensures
        matches_tree(d.view_toml(), toml_tree(v)),
{
    match d {
        Toml::Str(s) => toml::Value::String(s.clone()),
        Toml::Int(i) => toml::Value::Integer(*i),
        Toml::Bool(b) => toml::Value::Boolean(*b),
        Toml::Array(a) => toml::Value::Array(a.iter().map(value_of_doc).collect()),
        Toml::Table(t) => toml::Value::Table(t.iter().map(|(k, x)| (k.clone(), value_of_doc(x))).collect()),
        Toml::Other(v) => v.clone(),
    }
}

/// The text `toml` writes for a one-entry table `{ key = value }`, or the
/// serializer's message.
pub uninterp spec fn toml_segment(key: Seq<char>, value: Map<Seq<TomlSeg>, TomlNode>) -> Result<Seq<char>, Seq<char>>;

/// `toml::ser::to_string` of the table holding only `key = value`.
#[verifier::external_body]
pub fn toml_single_key_text(key: &str, value: toml::Value) -> (r: Result<String, String>)
    ensures
        match toml_segment(key@, toml_tree(value)) {
            Ok(s) => r matches Ok(t) && t@ == s,
            Err(m) => r matches Err(e) && e@ == m,
        },
{
    let mut wrapper = toml::map::Map::new();
    wrapper.insert(key.to_string(), value);
    match toml::ser::to_string(&toml::Value::Table(wrapper)) {
        Ok(s) => Ok(s),
        Err(e) => Err(e.to_string()),
    }
}

/// The `Debug` text of a TOML value.
pub uninterp spec fn toml_debug(value: Map<Seq<TomlSeg>, TomlNode>) -> Seq<char>;

/// `format!("{:?}", v)` of a `toml::Value`.
#[verifier::external_body]
pub fn toml_debug_text(v: &toml::Value) -> (r: String)
    ensures
        r@ == toml_debug(toml_tree(*v)),
{
    format!("{v:?}")
}

/// `Value::type_str`: the name of a value's kind.
#[verifier::external_body]
pub fn toml_type_str(v: &toml::Value) -> (r: &'static str)
    ensures
        r@ == node_type_text(tree_root(toml_tree(*v))),
{
    v.type_str()
}

/// The names `Value::type_str` gives.
pub open spec fn node_type_text(n: Option<TomlNode>) -> Seq<char> {
    match n {
        Some(TomlNode::Str(_)) => "string"@,
        Some(TomlNode::Int(_)) => "integer"@,
        Some(TomlNode::Float(_)) => "float"@,
        Some(TomlNode::Bool(_)) => "boolean"@,
        Some(TomlNode::Datetime(_)) => "datetime"@,
        Some(TomlNode::Array(_)) => "array"@,
        Some(TomlNode::Table) => "table"@,
        None => Seq::empty(),
    }
}

} // verus!

verus! {

/// The name of a value's kind, as `Value::type_str` gives it.
pub open spec fn kind_text(v: TomlV) -> Seq<char> {
    match v {
        TomlV::Str(_) => "string"@,
        TomlV::Int(_) => "integer"@,
        TomlV::Bool(_) => "boolean"@,
        TomlV::Array(_) => "array"@,
        TomlV::Table(_) => "table"@,
        TomlV::Other(x) => node_type_text(tree_root(toml_tree(x))),
    }
}

pub fn value_kind_name(v: &Toml) -> (r: &'static str)
    ensures
        r@ == kind_text(v.view_toml()),
{
    match v {
        Toml::Str(_) => "string",
        Toml::Int(_) => "integer",
        Toml::Bool(_) => "boolean",
        Toml::Array(_) => "array",
        Toml::Table(_) => "table",
        Toml::Other(x) => toml_type_str(x),
    }
}

/// After setting `k`, reading `k` gives the value set.
pub proof fn lemma_tget_tput(es: Seq<(Seq<char>, TomlV)>, k: Seq<char>, v: TomlV)
    ensures
        tget(tput(es, k, v), k) == Some(v),
        tindex(tput(es, k, v), k, 0) == (match tindex(es, k, 0) {
            Some(i) => Some(i),
            None => Some(es.len() as int),
        }),
{
    lemma_tindex(es, k, 0);
    match tindex(es, k, 0) {
        Some(i) => {
            let u = es.update(i, (k, v));
            assert forall|m: int| 0 <= m < i implies u[m].0 != k by {
                assert(u[m] == es[m]);
            }
            lemma_tindex_at(u, k, 0, i);
        },
        None => {
            let u = es.push((k, v));
            assert forall|m: int| 0 <= m < es.len() implies u[m].0 != k by {
                assert(u[m] == es[m]);
            }
            lemma_tindex_at(u, k, 0, es.len() as int);
        },
    }
}

/// Setting a key twice to the same value is setting it once.
pub proof fn lemma_tput_tput(es: Seq<(Seq<char>, TomlV)>, k: Seq<char>, v: TomlV)
    ensures
        tput(tput(es, k, v), k, v) == tput(es, k, v),
{
    lemma_tget_tput(es, k, v);
    let u = tput(es, k, v);
    let i = tindex(u, k, 0)->Some_0;
    lemma_tindex(u, k, 0);
    assert(u.update(i, (k, v)) =~= u);
}

/// No key occurs twice among the table's entries.
pub open spec fn unique_keys(es: Seq<(Seq<char>, TomlV)>) -> bool {
    forall|i: int, j: int| 0 <= i < j < es.len() ==> (#[trigger] es[i]).0 != (#[trigger] es[j]).0
}

/// Setting one key leaves what another key reads.
pub proof fn lemma_tget_tput_other(es: Seq<(Seq<char>, TomlV)>, k: Seq<char>, v: TomlV, k2: Seq<char>)
    requires
        k2 != k,
    ensures
        tget(tput(es, k, v), k2) == tget(es, k2),
{
    lemma_tindex(es, k2, 0);
    lemma_tindex(es, k, 0);
    let u = tput(es, k, v);
    assert(u.len() >= es.len());
    assert forall|m: int| 0 <= m < es.len() && es[m].0 != k implies u[m] == es[m] by {
        lemma_tindex(es, k, 0);
    }
    match tindex(es, k2, 0) {
        Some(j) => {
            lemma_tindex(es, k, 0);
            assert forall|m: int| 0 <= m < j implies u[m].0 != k2 by {
                if es[m].0 != k {
                    assert(u[m] == es[m]);
                } else {
                    assert(u[m].0 == k);
                }
            }
            if es[j].0 == k2 {
                assert(u[j] == es[j]);
            }
            lemma_tindex_at(u, k2, 0, j);
        },
        None => {
            lemma_tindex(es, k, 0);
            assert forall|m: int| 0 <= m < u.len() implies u[m].0 != k2 by {
                if m < es.len() && es[m].0 != k {
                    assert(u[m] == es[m]);
                }
            }
            lemma_tindex_none(u, k2, 0);
        },
    }
}

/// Setting one key leaves what every other key reads.
pub proof fn lemma_tput_frame(es: Seq<(Seq<char>, TomlV)>, k: Seq<char>, v: TomlV)
    ensures
        forall|k2: Seq<char>| k2 != k ==> #[trigger] tget(tput(es, k, v), k2) == tget(es, k2),
{
    assert forall|k2: Seq<char>| k2 != k implies #[trigger] tget(tput(es, k, v), k2) == tget(es, k2) by {
        lemma_tget_tput_other(es, k, v, k2);
    }
}

/// Setting a key to the value it already reads changes nothing.
pub proof fn lemma_tput_same(es: Seq<(Seq<char>, TomlV)>, k: Seq<char>, v: TomlV)
    requires
        tget(es, k) == Some(v),
    ensures
        tput(es, k, v) == es,
{
    lemma_tindex(es, k, 0);
    let i = tindex(es, k, 0)->Some_0;
    assert(es.update(i, (k, v)) =~= es);
}

/// Deleting a key from a table with unique keys removes it entirely and
/// adds no key.
pub proof fn lemma_tdel_unique(es: Seq<(Seq<char>, TomlV)>, k: Seq<char>)
    requires
        unique_keys(es),
    ensures
        unique_keys(tdel(es, k)),
        tindex(tdel(es, k), k, 0) is None,
        forall|k2: Seq<char>| tindex(es, k2, 0) is None ==> #[trigger] tindex(tdel(es, k), k2, 0) is None,
{
    lemma_tindex(es, k, 0);
    let d = tdel(es, k);
    match tindex(es, k, 0) {
        Some(i) => {
            assert forall|a: int, b: int| 0 <= a < b < d.len() implies (#[trigger] d[a]).0 != (#[trigger] d[b]).0 by {
                let a2 = if a < i { a } else { a + 1 };
                let b2 = if b < i { b } else { b + 1 };
                assert(d[a] == es[a2] && d[b] == es[b2]);
                assert(es[a2].0 != es[b2].0);
            }
            assert forall|m: int| 0 <= m < d.len() implies d[m].0 != k by {
                let m2 = if m < i { m } else { m + 1 };
                assert(d[m] == es[m2]);
                if m2 < i {
                } else {
                    assert(es[i].0 != es[m2].0);
                }
            }
            lemma_tindex_none(d, k, 0);
            assert forall|k2: Seq<char>| tindex(es, k2, 0) is None implies #[trigger] tindex(d, k2, 0) is None by {
                lemma_tindex(es, k2, 0);
                assert forall|m: int| 0 <= m < d.len() implies d[m].0 != k2 by {
                    let m2 = if m < i { m } else { m + 1 };
                    assert(d[m] == es[m2]);
                }
                lemma_tindex_none(d, k2, 0);
            }
        },
        None => {},
    }
}

/// Setting a present key replaces its entry in place.
pub proof fn lemma_put_at(es: Seq<(Seq<char>, TomlV)>, k: Seq<char>, i: int, v: TomlV)
    requires
        tindex(es, k, 0) == Some(i),
    ensures
        tput(es, k, v) == es.update(i, (k, v)),
{
}

/// A table built from `(key, value)` pairs.
pub open spec fn str_array(s: Seq<Seq<char>>) -> TomlV {
    TomlV::Array(Seq::new(s.len(), |i: int| TomlV::Str(s[i])))
}

/// An array of strings.
pub fn string_array(s: &Vec<String>) -> (r: Toml)
    ensures
        r.view_toml() == str_array(s.deep_view()),
{
    let mut items: Vec<Toml> = Vec::new();
    let mut i: usize = 0;
    while i < s.len()
        invariant
            i <= s@.len(),
            items@.len() == i,
            forall|k: int| 0 <= k < i ==> (#[trigger] items@[k]).view_toml() == TomlV::Str(s@[k]@),
        decreases s@.len() - i,
    {
        items.push(Toml::Str(s[i].clone()));
        i = i + 1;
    }
    let r = Toml::Array(items);
    proof {
        lemma_array_view(items);
        assert(Seq::new(items@.len(), |k: int| items@[k].view_toml()) =~= Seq::new(
            s.deep_view().len(),
            |k: int| TomlV::Str(s.deep_view()[k]),
        ));
    }
    r
}

} // verus!

verus! {

/// Takes the table under `key` out of `es`, when there is one: its
/// position, its key and its entries; `es` is left without that entry.
pub fn take_table(es: &mut Vec<(String, Toml)>, key: &str) -> (r: Option<(usize, String, Vec<(String, Toml)>)>)
    ensures
        match r {
            None => final(es)@ == old(es)@ && !has_table(tview(old(es)@), key@),
            Some((i, k, t)) => {
                &&& has_table(tview(old(es)@), key@)
                &&& tindex(tview(old(es)@), key@, 0) == Some(i as int)
                &&& k@ == key@
                &&& tview(t@) == sub_table(tview(old(es)@), key@)
                &&& i < old(es)@.len()
                &&& old(es)@[i as int] == (k, Toml::Table(t))
                &&& final(es)@ == old(es)@.remove(i as int)
            },
        },
{
    match tbl_index(es, key) {
        None => None,
        Some(i) => {
            proof {
                lemma_tindex(tview(es@), key@, 0);
            }
            let is_tbl = match &es[i].1 {
                Toml::Table(_) => true,
                _ => false,
            };
            if !is_tbl {
                return None;
            }
            let (k, v) = tbl_take(es, i);
            match v {
                Toml::Table(t) => {
                    proof {
                        lemma_table_view(t);
                    }
                    Some((i, k, t))
                },
                _ => None,
            }
        },
    }
}

/// Puts a table taken with [`take_table`] back, with its new entries.
pub fn put_table_back(es: &mut Vec<(String, Toml)>, i: usize, k: String, t: Vec<(String, Toml)>)
    requires
        i <= old(es)@.len(),
    ensures
        final(es)@ == old(es)@.insert(i as int, (k, Toml::Table(t))),
{
    tbl_restore(es, i, (k, Toml::Table(t)));
}

/// Taking a table out and putting new entries back sets the key.
pub proof fn lemma_table_round_trip(
    es: Seq<(String, Toml)>,
    key: Seq<char>,
    i: int,
    k: String,
    t: Vec<(String, Toml)>,
)
    requires
        0 <= i < es.len(),
        tindex(tview(es), key, 0) == Some(i),
        k@ == key,
        es[i].0 == k,
    ensures
        tview(es.remove(i).insert(i, (k, Toml::Table(t)))) == tput(tview(es), key, TomlV::Table(tview(t@))),
{
    lemma_tview_restore(es, i, k, Toml::Table(t));
    lemma_table_view(t);
    lemma_put_at(tview(es), key, i, TomlV::Table(tview(t@)));
}

/// Putting back the entries that were taken leaves the view as it was.
pub proof fn lemma_table_unchanged(es: Seq<(String, Toml)>, i: int, k: String, t0: Vec<(String, Toml)>, t: Vec<
    (String, Toml),
>)
    requires
        0 <= i < es.len(),
        es[i] == (k, Toml::Table(t0)),
        t@ == t0@,
    ensures
        tview(es.remove(i).insert(i, (k, Toml::Table(t)))) == tview(es),
{
    lemma_tview_restore(es, i, k, Toml::Table(t));
    lemma_table_view(t);
    lemma_table_view(t0);
    assert(tview(es).update(i, (k@, TomlV::Table(tview(t@)))) =~= tview(es));
}

/// An empty table's view.
pub proof fn lemma_empty_table()
    ensures
        tview(Seq::<(String, Toml)>::empty()) == Seq::<(Seq<char>, TomlV)>::empty(),
{
    assert(tview(Seq::<(String, Toml)>::empty()) =~= Seq::<(Seq<char>, TomlV)>::empty());
}

} // verus!
