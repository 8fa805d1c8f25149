//! The per-crate pilot gate: a crate's compat envelope against the
//! ceilings recorded in `baseline.toml`.
use vstd::prelude::*;
use crate::compat::report::CompatEnvelope;
use crate::error::Error;
use crate::text::{
    decimal, has_prefix, lemma_str_lt_asymmetric, lemma_str_lt_irreflexive, push_decimal, push_decimal_u64, push_i64,
    push_str, push_string, signed_decimal, str_eq, str_lt,
};
use vstd::utf8::{decode_utf8, valid_utf8};
use crate::toml_model::{
    has_key, parse_toml_document, subtree, table_entries_ok, toml_as_integer, toml_document, toml_get,
    toml_table_entries, toml_tree, tree_root, utf8_text, TomlNode, TomlSeg,
};

verus! {

/// One crate's ceiling: how many mismatching fixtures it may report.
#[derive(Debug, Clone, Copy, PartialEq, Eq, Structural)]
pub struct Ceiling {
    pub n_max: u32,
}

/// Outcome of one evaluation of a crate's envelope.
#[derive(Debug, Clone, PartialEq, Eq)]
pub enum GateOutcome {
    /// Every rule holds.
    Allow,
    /// The crate has no ceiling, so nothing is checked.
    NotEnrolled,
    /// A rule failed; the reason names the field and the threshold.
    Block(String),
}

/// First entry for `k`, from position `i` on.
pub open spec fn lookup_from(s: Seq<(String, Ceiling)>, k: Seq<char>, i: int) -> Option<int>
    decreases s.len() - i,
{
    if i < 0 || i >= s.len() {
        None
    } else if s[i].0@ == k {
        Some(i)
    } else {
        lookup_from(s, k, i + 1)
    }
}

/// Ceilings keyed by crate name.
#[derive(Debug)]
pub struct CeilingMap {
    entries: Vec<(String, Ceiling)>,
}

/// The crate names of the entries, in order.
pub open spec fn entry_keys(s: Seq<(String, Ceiling)>) -> Seq<Seq<char>> {
    Seq::new(s.len(), |i: int| s[i].0@)
}

impl CeilingMap {
    /// No crate name occurs twice.
    #[verifier::type_invariant]
    closed spec fn keys_distinct(self) -> bool {
        entry_keys(self.entries@).no_duplicates()
    }
}

pub open spec fn entries_view(s: Seq<(String, Ceiling)>) -> Map<Seq<char>, u32> {
    Map::new(|k: Seq<char>| lookup_from(s, k, 0) is Some, |k: Seq<char>| s[lookup_from(s, k, 0)->0].1.n_max)
}

proof fn lemma_lookup_bounds(s: Seq<(String, Ceiling)>, k: Seq<char>, i: int)
    requires
        0 <= i,
    ensures
        lookup_from(s, k, i) matches Some(j) ==> i <= j < s.len() && s[j].0@ == k && forall|m: int|
            i <= m < j ==> s[m].0@ != k,
        lookup_from(s, k, i) is None ==> forall|m: int| i <= m < s.len() ==> s[m].0@ != k,
    decreases s.len() - i,
{
    if i < s.len() && s[i].0@ != k {
        lemma_lookup_bounds(s, k, i + 1);
    }
}

proof fn lemma_lookup_char(s: Seq<(String, Ceiling)>, k: Seq<char>, j: int)
    requires
        0 <= j < s.len(),
        s[j].0@ == k,
        forall|m: int| 0 <= m < j ==> s[m].0@ != k,
    ensures
        lookup_from(s, k, 0) == Some(j),
    decreases j,
{
    lemma_lookup_prefix(s, k, 0, j);
}

proof fn lemma_lookup_prefix(s: Seq<(String, Ceiling)>, k: Seq<char>, i: int, j: int)
    requires
        0 <= i <= j < s.len(),
        s[j].0@ == k,
        forall|m: int| i <= m < j ==> s[m].0@ != k,
    ensures
        lookup_from(s, k, i) == Some(j),
    decreases j - i,
{
    if i < j {
        lemma_lookup_prefix(s, k, i + 1, j);
    }
}

proof fn lemma_lookup_none(s: Seq<(String, Ceiling)>, k: Seq<char>, i: int)
    requires
        0 <= i,
        forall|m: int| i <= m < s.len() ==> s[m].0@ != k,
    ensures
        lookup_from(s, k, i) is None,
    decreases s.len() - i,
{
    if i < s.len() {
        lemma_lookup_none(s, k, i + 1);
    }
}

impl View for CeilingMap {
    type V = Map<Seq<char>, u32>;

    closed spec fn view(&self) -> Map<Seq<char>, u32> {
        entries_view(self.entries@)
    }
}

impl CeilingMap {
    /// No ceilings.
    pub fn new() -> (m: Self)
        ensures
            m@ == Map::<Seq<char>, u32>::empty(),
    {
        let m = CeilingMap { entries: Vec::new() };
        proof {
            assert forall|k: Seq<char>| !(#[trigger] m@.contains_key(k)) by {
                assert(lookup_from(m.entries@, k, 0) is None);
            }
            assert(m@ =~= Map::<Seq<char>, u32>::empty());
        }
        m
    }

    /// Sets the ceiling of `crate_name`.
    pub fn insert(&mut self, crate_name: String, ceiling: Ceiling)
        ensures
            final(self)@ == old(self)@.insert(crate_name@, ceiling.n_max),
    {
        proof {
            use_type_invariant(&*self);
        }
        let mut entries: Vec<(String, Ceiling)> = Vec::new();
        std::mem::swap(&mut entries, &mut self.entries);
        let ghost s = entries@;
        let ghost k = crate_name@;
        assert(entries_view(s) == old(self)@);
        let mut i: usize = 0;
        while i < entries.len()
            invariant
                entries@ == s,
                i <= s.len(),
                forall|m: int| 0 <= m < i ==> s[m].0@ != k,
                k == crate_name@,
            ensures
                i <= s.len(),
                forall|m: int| 0 <= m < i ==> s[m].0@ != k,
                i < s.len() ==> s[i as int].0@ == k,
            decreases s.len() - i,
        {
            if str_eq(entries[i].0.as_str(), crate_name.as_str()) {
                break;
            }
            i = i + 1;
        }
        let ghost entry = (crate_name, ceiling);
        if i < entries.len() {
            entries.set(i, (crate_name, ceiling));
            proof {
                let t = entries@;
                assert(t == s.update(i as int, entry));
                assert(entry_keys(t) =~= entry_keys(s));
                lemma_lookup_char(t, k, i as int);
                assert forall|q: Seq<char>| q != k implies lookup_from(t, q, 0) == lookup_from(s, q, 0) by {
                    lemma_lookup_bounds(s, q, 0);
                    match lookup_from(s, q, 0) {
                        Some(j) => {
                            assert(forall|m: int| 0 <= m < j ==> t[m].0@ != q);
                            lemma_lookup_char(t, q, j);
                        },
                        None => {
                            lemma_lookup_none(t, q, 0);
                        },
                    }
                }
                assert forall|q: Seq<char>| #[trigger] entries_view(t).contains_key(q) == entries_view(s).insert(
                    k,
                    ceiling.n_max,
                ).contains_key(q) && (entries_view(t).contains_key(q) ==> entries_view(t)[q] == entries_view(
                    s,
                ).insert(k, ceiling.n_max)[q]) by {
                    if q != k {
                        lemma_lookup_bounds(s, q, 0);
                    }
                }
                assert(entries_view(t) =~= entries_view(s).insert(k, ceiling.n_max));
            }
        } else {
            entries.push((crate_name, ceiling));
            proof {
                let t = entries@;
                assert(t == s.push(entry));
                assert(entry_keys(t) =~= entry_keys(s).push(k));
                assert forall|a: int, b: int| 0 <= a < b < entry_keys(t).len() implies entry_keys(t)[a]
                    != entry_keys(t)[b] by {
                    if b == s.len() {
                        assert(entry_keys(t)[a] == s[a].0@);
                    }
                }
                lemma_lookup_char(t, k, s.len() as int);
                assert forall|q: Seq<char>| q != k implies lookup_from(t, q, 0) == lookup_from(s, q, 0) by {
                    lemma_lookup_bounds(s, q, 0);
                    match lookup_from(s, q, 0) {
                        Some(j) => {
                            lemma_lookup_char(t, q, j);
                        },
                        None => {
                            lemma_lookup_none(t, q, 0);
                        },
                    }
                }
                assert forall|q: Seq<char>| #[trigger] entries_view(t).contains_key(q) == entries_view(s).insert(
                    k,
                    ceiling.n_max,
                ).contains_key(q) && (entries_view(t).contains_key(q) ==> entries_view(t)[q] == entries_view(
                    s,
                ).insert(k, ceiling.n_max)[q]) by {
                    if q != k {
                        lemma_lookup_bounds(s, q, 0);
                    }
                }
                assert(entries_view(t) =~= entries_view(s).insert(k, ceiling.n_max));
            }
        }
        self.entries = entries;
    }

    /// The ceiling of `crate_name`, if it has one.
    pub fn get(&self, crate_name: &str) -> (r: Option<Ceiling>)
        ensures
            r is Some <==> self@.contains_key(crate_name@),
            r matches Some(c) ==> c.n_max == self@[crate_name@],
    {
        let mut i: usize = 0;
        while i < self.entries.len()
            invariant
                i <= self.entries@.len(),
                forall|m: int| 0 <= m < i ==> self.entries@[m].0@ != crate_name@,
            decreases self.entries@.len() - i,
        {
            if str_eq(self.entries[i].0.as_str(), crate_name) {
                proof {
                    lemma_lookup_char(self.entries@, crate_name@, i as int);
                }
                return Some(self.entries[i].1);
            }
            i = i + 1;
        }
        proof {
            lemma_lookup_none(self.entries@, crate_name@, 0);
        }
        None
    }

    /// Number of crates with a ceiling.
    pub fn len(&self) -> (n: usize)
        ensures
            n == self@.dom().len(),
    {
        proof {
            use_type_invariant(self);
            lemma_view_len(self.entries@);
        }
        self.entries.len()
    }

    /// True when no crate has a ceiling.
    pub fn is_empty(&self) -> (r: bool)
        ensures
            r == (self@.dom().len() == 0),
    {
        self.len() == 0
    }
}

proof fn lemma_view_len(s: Seq<(String, Ceiling)>)
    requires
        entry_keys(s).no_duplicates(),
    ensures
        entries_view(s).dom().finite(),
        entries_view(s).dom().len() == s.len(),
{
    let keys = entry_keys(s);
    assert(entries_view(s).dom() =~= keys.to_set()) by {
        assert forall|k: Seq<char>| entries_view(s).dom().contains(k) implies keys.to_set().contains(k) by {
            lemma_lookup_bounds(s, k, 0);
            let j = lookup_from(s, k, 0)->0;
            assert(keys[j] == k);
        }
        assert forall|k: Seq<char>| keys.to_set().contains(k) implies entries_view(s).dom().contains(k) by {
            let j = choose|j: int| 0 <= j < keys.len() && keys[j] == k;
            lemma_lookup_bounds(s, k, 0);
            assert(s[j].0@ == k);
        }
    }
    keys.unique_seq_to_set();
    vstd::seq_lib::seq_to_set_is_finite(keys);
}

pub const ERRORS_TAIL: &'static str = " entry/entries (must be empty; the pilot gate refuses to score a run that recorded an error). First error: type=`";

pub const UNKNOWN_TAIL: &'static str = " (must be 0; the conservatism rule requires every libtest verdict to correlate to a recognized fixture before the pilot gate is meaningful)";

pub const BASELINE_EXIT_TAIL: &'static str = " (must be 0; the baseline `cargo test` invocation must succeed before deltas are meaningful)";

pub const LIHAAF_EXIT_TAIL: &'static str = " (must be 0; the inner lihaaf compat run must produce a clean session)";

pub const CEILING_TAIL: &'static str = "` (the shrinking-only rule: a PR may decrease but not increase the per-crate ceiling)";

pub const TOTALS_TAIL: &'static str = " (rule: baseline total must equal lihaaf total plus excluded count)";

/// Total of the baseline side.
pub open spec fn baseline_total(env: CompatEnvelope) -> nat {
    (env.results.baseline.pass + env.results.baseline.fail) as nat
}

/// Total of the lihaaf side.
pub open spec fn lihaaf_total(env: CompatEnvelope) -> nat {
    (env.results.lihaaf.pass + env.results.lihaaf.fail) as nat
}

/// The first rule the envelope breaks for a crate named `name` with
/// ceiling `n_max`, as its message; `None` when every rule holds.
pub open spec fn gate_block(name: Seq<char>, n_max: u32, env: CompatEnvelope) -> Option<Seq<char>> {
    let res = env.results;
    if env.errors@.len() > 0 {
        Some(
            "envelope.errors carries "@ + decimal(env.errors@.len()) + ERRORS_TAIL@
                + env.errors@[0].error_type@ + "` detail=`"@ + env.errors@[0].detail@ + "`"@,
        )
    } else if res.baseline.unknown_count != 0 {
        Some("baseline.unknown_count = "@ + decimal(res.baseline.unknown_count as nat) + UNKNOWN_TAIL@)
    } else if res.baseline.exit_code != 0 {
        Some("baseline.exit_code = "@ + signed_decimal(res.baseline.exit_code as int) + BASELINE_EXIT_TAIL@)
    } else if res.lihaaf.exit_code != 0 {
        Some("lihaaf.exit_code = "@ + signed_decimal(res.lihaaf.exit_code as int) + LIHAAF_EXIT_TAIL@)
    } else if res.mismatch_count > n_max {
        Some(
            "mismatch_count = "@ + decimal(res.mismatch_count as nat) + " exceeds ceiling `"@ + name
                + ".n_max = "@ + decimal(n_max as nat) + CEILING_TAIL@,
        )
    } else if baseline_total(env) != lihaaf_total(env) + env.excluded_fixtures@.len() {
        Some(
            "per-side totals diverge: baseline.pass+fail = "@ + decimal(baseline_total(env))
                + " but lihaaf.pass+fail = "@ + decimal(lihaaf_total(env)) + " and excluded_fixtures.len() = "@
                + decimal(env.excluded_fixtures@.len()) + TOTALS_TAIL@,
        )
    } else {
        None
    }
}

/// The outcome for `env` against the ceilings `m`.
pub open spec fn gate_spec(m: Map<Seq<char>, u32>, env: CompatEnvelope) -> Option<Option<Seq<char>>> {
    if m.contains_key(env.crate_name@) {
        Some(gate_block(env.crate_name@, m[env.crate_name@], env))
    } else {
        None
    }
}

/// Evaluates `envelope` against the ceilings: not enrolled without a
/// ceiling, else blocked on the first rule it breaks, else allowed.
pub fn check_gate(baseline: &CeilingMap, envelope: &CompatEnvelope) -> (r: GateOutcome)
    ensures
        match gate_spec(baseline@, *envelope) {
            None => r == GateOutcome::NotEnrolled,
            Some(None) => r == GateOutcome::Allow,
            Some(Some(msg)) => r matches GateOutcome::Block(s) && s@ == msg,
        },
{
    let ceiling = match baseline.get(envelope.crate_name.as_str()) {
        Some(c) => c,
        None => {
            return GateOutcome::NotEnrolled;
        },
    };
    let ghost name = envelope.crate_name@;
    let res = &envelope.results;
    let mut m = String::new();
    if envelope.errors.len() > 0 {
        push_str(&mut m, "envelope.errors carries ");
        push_decimal(&mut m, envelope.errors.len());
        push_str(&mut m, ERRORS_TAIL);
        push_string(&mut m, &envelope.errors[0].error_type);
        push_str(&mut m, "` detail=`");
        push_string(&mut m, &envelope.errors[0].detail);
        push_str(&mut m, "`");
        return GateOutcome::Block(m);
    }
    if res.baseline.unknown_count != 0 {
        push_str(&mut m, "baseline.unknown_count = ");
        push_decimal_u64(&mut m, res.baseline.unknown_count as u64);
        push_str(&mut m, UNKNOWN_TAIL);
        return GateOutcome::Block(m);
    }
    if res.baseline.exit_code != 0 {
        push_str(&mut m, "baseline.exit_code = ");
        push_i64(&mut m, res.baseline.exit_code as i64);
        push_str(&mut m, BASELINE_EXIT_TAIL);
        return GateOutcome::Block(m);
    }
    if res.lihaaf.exit_code != 0 {
        push_str(&mut m, "lihaaf.exit_code = ");
        push_i64(&mut m, res.lihaaf.exit_code as i64);
        push_str(&mut m, LIHAAF_EXIT_TAIL);
        return GateOutcome::Block(m);
    }
    if res.mismatch_count > ceiling.n_max {
        push_str(&mut m, "mismatch_count = ");
        push_decimal_u64(&mut m, res.mismatch_count as u64);
        push_str(&mut m, " exceeds ceiling `");
        push_string(&mut m, &envelope.crate_name);
        push_str(&mut m, ".n_max = ");
        push_decimal_u64(&mut m, ceiling.n_max as u64);
        push_str(&mut m, CEILING_TAIL);
        return GateOutcome::Block(m);
    }
    let baseline_sum: u64 = res.baseline.pass as u64 + res.baseline.fail as u64;
    let lihaaf_sum: u64 = res.lihaaf.pass as u64 + res.lihaaf.fail as u64;
    let excluded: u64 = envelope.excluded_fixtures.len() as u64;
    if lihaaf_sum > u64::MAX - excluded || baseline_sum != lihaaf_sum + excluded {
        push_str(&mut m, "per-side totals diverge: baseline.pass+fail = ");
        push_decimal_u64(&mut m, baseline_sum);
        push_str(&mut m, " but lihaaf.pass+fail = ");
        push_decimal_u64(&mut m, lihaaf_sum);
        push_str(&mut m, " and excluded_fixtures.len() = ");
        push_decimal_u64(&mut m, excluded);
        push_str(&mut m, TOTALS_TAIL);
        return GateOutcome::Block(m);
    }
    GateOutcome::Allow
}

/// The `n_max` integer of a crate's entry (0 when it has none).
pub open spec fn entry_n_max(sub: Map<Seq<TomlSeg>, TomlNode>) -> int {
    match tree_root(subtree(sub, TomlSeg::Key("n_max"@))) {
        Some(TomlNode::Int(i)) => i,
        _ => 0,
    }
}

/// Why the entry `sub` of crate `name` is refused, if it is.
pub open spec fn entry_error(name: Seq<char>, sub: Map<Seq<TomlSeg>, TomlNode>) -> Option<Seq<char>> {
    if tree_root(sub) != Some(TomlNode::Table) {
        Some("baseline.toml entry for crate `"@ + name + "` must be a table"@)
    } else if !has_key(sub, "n_max"@) {
        Some("baseline.toml entry for crate `"@ + name + "` is missing required key `n_max`"@)
    } else if !(tree_root(subtree(sub, TomlSeg::Key("n_max"@))) matches Some(TomlNode::Int(_))) {
        Some("baseline.toml `"@ + name + ".n_max` must be a non-negative integer"@)
    } else if entry_n_max(sub) < 0 {
        Some("baseline.toml `"@ + name + ".n_max = "@ + signed_decimal(entry_n_max(sub)) + "` must be non-negative"@)
    } else if entry_n_max(sub) > u32::MAX {
        Some("baseline.toml `"@ + name + ".n_max = "@ + signed_decimal(entry_n_max(sub)) + "` exceeds the u32 range"@)
    } else {
        None
    }
}

/// The entry of crate `k` in the document `t`.
pub open spec fn crate_entry(t: Map<Seq<TomlSeg>, TomlNode>, k: Seq<char>) -> Map<Seq<TomlSeg>, TomlNode> {
    subtree(t, TomlSeg::Key(k))
}

/// Every crate entry of `t` is accepted.
pub open spec fn baseline_entries_ok(t: Map<Seq<TomlSeg>, TomlNode>) -> bool {
    forall|k: Seq<char>| has_key(t, k) ==> (#[trigger] entry_error(k, crate_entry(t, k))) is None
}

/// `msg` is the refusal of the first refused crate of `t`, in key order.
pub open spec fn first_entry_error(t: Map<Seq<TomlSeg>, TomlNode>, k: Seq<char>, msg: Seq<char>) -> bool {
    &&& has_key(t, k)
    &&& entry_error(k, crate_entry(t, k)) == Some(msg)
    &&& forall|k2: Seq<char>|
        has_key(t, k2) && #[trigger] str_lt(k2, k) ==> entry_error(k2, crate_entry(t, k2)) is None
}

/// The ceilings an accepted document records.
pub open spec fn baseline_ceilings(t: Map<Seq<TomlSeg>, TomlNode>) -> Map<Seq<char>, u32> {
    Map::new(|k: Seq<char>| has_key(t, k), |k: Seq<char>| entry_n_max(crate_entry(t, k)) as u32)
}

/// A `TomlParse` error for `path` whose message satisfies `msg_ok`.
pub open spec fn is_toml_error(r: Result<CeilingMap, Error>, path: Seq<char>, msg: Seq<char>) -> bool {
    r matches Err(Error::TomlParse { path: p, message }) && p@ == path && message@ == msg
}

/// `r` reports, for `path`, the first refused crate entry of `t`.
pub open spec fn is_entry_error(r: Result<CeilingMap, Error>, t: Map<Seq<TomlSeg>, TomlNode>, path: Seq<char>) -> bool {
    &&& r is Err
    &&& r->Err_0 is TomlParse
    &&& r->Err_0->TomlParse_path@ == path
    &&& exists|k: Seq<char>| first_entry_error(t, k, r->Err_0->TomlParse_message@)
}

/// Parses `baseline.toml`: a top-level table whose keys are crate names,
/// each a table with a non-negative `n_max` that fits in `u32`. Entries are
/// checked in key order and the first refused one is reported.
pub fn parse_baseline(toml_bytes: &[u8], source: &str) -> (r: Result<CeilingMap, Error>)
    ensures
        !valid_utf8(toml_bytes@) ==> (r matches Err(Error::TomlParse { path, message }) && path@ == source@
            && has_prefix(message@, "baseline.toml is not valid UTF-8: "@)),
        valid_utf8(toml_bytes@) ==> match toml_document(decode_utf8(toml_bytes@)) {
            Err(m) => is_toml_error(r, source@, "baseline.toml: "@ + m),
            Ok(t) => if tree_root(t) != Some(TomlNode::Table) {
                is_toml_error(r, source@, "baseline.toml top level must be a table"@)
            } else if baseline_entries_ok(t) {
                r matches Ok(map) && map@ == baseline_ceilings(t)
            } else {
                is_entry_error(r, t, source@)
            },
        },
{
    let text = match utf8_text(toml_bytes) {
        Ok(t) => t,
        Err(e) => {
            let mut m = String::new();
            push_str(&mut m, "baseline.toml is not valid UTF-8: ");
            push_string(&mut m, &e);
            proof {
                assert(m@.subrange(0, "baseline.toml is not valid UTF-8: "@.len() as int) =~= "baseline.toml is not valid UTF-8: "@);
            }
            return Err(Error::TomlParse { path: source.to_owned(), message: m });
        },
    };
    let value = match parse_toml_document(text.as_str()) {
        Ok(v) => v,
        Err(e) => {
            let mut m = String::new();
            push_str(&mut m, "baseline.toml: ");
            push_string(&mut m, &e);
            return Err(Error::TomlParse { path: source.to_owned(), message: m });
        },
    };
    let ghost t = toml_tree(value);
    let entries = match toml_table_entries(&value) {
        Some(es) => es,
        None => {
            let mut m = String::new();
            push_str(&mut m, "baseline.toml top level must be a table");
            return Err(Error::TomlParse { path: source.to_owned(), message: m });
        },
    };
    let ghost es = Seq::new(entries@.len(), |i: int| (entries@[i].0@, toml_tree(entries@[i].1)));
    assert(table_entries_ok(t, es));
    let mut out = CeilingMap::new();
    let mut i: usize = 0;
    while i < entries.len()
        invariant
            i <= entries@.len(),
            es.len() == entries@.len(),
            es == Seq::new(entries@.len(), |i: int| (entries@[i].0@, toml_tree(entries@[i].1))),
            table_entries_ok(t, es),
            t == toml_tree(value),
            valid_utf8(toml_bytes@),
            toml_document(decode_utf8(toml_bytes@)) == Ok::<Map<Seq<TomlSeg>, TomlNode>, Seq<char>>(t),
            forall|j: int| 0 <= j < i ==> (#[trigger] entry_error(es[j].0, es[j].1)) is None,
            forall|k: Seq<char>| out@.contains_key(k) <==> exists|j: int| 0 <= j < i && (#[trigger] es[j]).0 == k,
            forall|j: int| 0 <= j < i ==> out@[(#[trigger] es[j]).0] == entry_n_max(es[j].1) as u32,
        decreases entries@.len() - i,
    {
        let name = &entries[i].0;
        let sub = &entries[i].1;
        let ghost name_v = name@;
        let ghost sub_t = toml_tree(*sub);
        assert(es[i as int] == (name_v, sub_t));
        let mut m = String::new();
        let mut refused = false;
        if toml_table_entries(sub).is_none() {
            push_str(&mut m, "baseline.toml entry for crate `");
            push_string(&mut m, name);
            push_str(&mut m, "` must be a table");
            refused = true;
        } else {
            match toml_get(sub, "n_max") {
                None => {
                    push_str(&mut m, "baseline.toml entry for crate `");
                    push_string(&mut m, name);
                    push_str(&mut m, "` is missing required key `n_max`");
                    refused = true;
                },
                Some(nv) => match toml_as_integer(&nv) {
                    None => {
                        push_str(&mut m, "baseline.toml `");
                        push_string(&mut m, name);
                        push_str(&mut m, ".n_max` must be a non-negative integer");
                        refused = true;
                    },
                    Some(n) => {
                        if n < 0 {
                            push_str(&mut m, "baseline.toml `");
                            push_string(&mut m, name);
                            push_str(&mut m, ".n_max = ");
                            push_i64(&mut m, n);
                            push_str(&mut m, "` must be non-negative");
                            refused = true;
                        } else if n > 4294967295 {
                            push_str(&mut m, "baseline.toml `");
                            push_string(&mut m, name);
                            push_str(&mut m, ".n_max = ");
                            push_i64(&mut m, n);
                            push_str(&mut m, "` exceeds the u32 range");
                            refused = true;
                        } else {
                            let ghost before = out@;
                            out.insert(name.clone(), Ceiling { n_max: n as u32 });
                            proof {
                                assert(entry_error(name_v, sub_t) is None);
                                assert forall|j: int| 0 <= j < i implies (#[trigger] es[j]).0 != name_v by {
                                    lemma_str_lt_irreflexive(name_v);
                                }
                                assert forall|k: Seq<char>| out@.contains_key(k) <==> exists|j: int|
                                    0 <= j < i + 1 && (#[trigger] es[j]).0 == k by {
                                    if k == name_v {
                                        assert(es[i as int].0 == k);
                                    }
                                }
                            }
                        }
                    },
                },
            }
        }
        if refused {
            proof {
                assert(entry_error(name_v, sub_t) == Some(m@));
                assert(has_key(t, name_v));
                assert(crate_entry(t, name_v) == sub_t);
                assert forall|k2: Seq<char>| has_key(t, k2) && #[trigger] str_lt(k2, name_v) implies entry_error(
                    k2,
                    crate_entry(t, k2),
                ) is None by {
                    let j = choose|j: int| 0 <= j < es.len() && (#[trigger] es[j]).0 == k2;
                    if j >= i {
                        if j > i {
                            assert(str_lt(es[i as int].0, es[j].0));
                        }
                        lemma_str_lt_asymmetric(k2, name_v);
                        lemma_str_lt_irreflexive(name_v);
                    }
                    assert(entry_error(es[j].0, es[j].1) is None);
                }
                assert(first_entry_error(t, name_v, m@));
                assert(!baseline_entries_ok(t));
            }
            let ghost msg = m@;
            let err: Result<CeilingMap, Error> = Err(Error::TomlParse { path: source.to_owned(), message: m });
            assert(is_entry_error(err, t, source@)) by {
                assert(err->Err_0->TomlParse_message@ == msg);
                assert(first_entry_error(t, name_v, err->Err_0->TomlParse_message@));
            }
            return err;
        }
        i = i + 1;
    }
    proof {
        assert forall|k: Seq<char>| has_key(t, k) implies (#[trigger] entry_error(k, crate_entry(t, k))) is None by {
            let j = choose|j: int| 0 <= j < es.len() && (#[trigger] es[j]).0 == k;
            assert(entry_error(es[j].0, es[j].1) is None);
        }
        assert forall|k: Seq<char>| #[trigger] out@.contains_key(k) == baseline_ceilings(t).contains_key(k) && (
        out@.contains_key(k) ==> out@[k] == baseline_ceilings(t)[k]) by {
            if has_key(t, k) {
                let j = choose|j: int| 0 <= j < es.len() && (#[trigger] es[j]).0 == k;
                assert(out@[es[j].0] == entry_n_max(es[j].1) as u32);
            }
            if out@.contains_key(k) {
                let j = choose|j: int| 0 <= j < i && (#[trigger] es[j]).0 == k;
                assert(has_key(t, es[j].0));
            }
        }
        assert(out@ =~= baseline_ceilings(t));
    }
    Ok(out)
}

/// A crate without a ceiling is not enrolled; an enrolled
/// crate's run is allowed exactly when it recorded no error, every libtest
/// verdict was recognized, both runs exited 0, the mismatch count is
/// within the ceiling, and the baseline's pass+fail equals the lihaaf
/// side's pass+fail plus the excluded fixtures (a difference either way
/// blocks).
pub proof fn lemma_gate_allows_exactly(m: Map<Seq<char>, u32>, env: CompatEnvelope)
    ensures
        gate_spec(m, env) is None <==> !m.contains_key(env.crate_name@),
        gate_spec(m, env) == Some(None::<Seq<char>>) <==> {
            &&& m.contains_key(env.crate_name@)
            &&& env.errors@.len() == 0
            &&& env.results.baseline.unknown_count == 0
            &&& env.results.baseline.exit_code == 0
            &&& env.results.lihaaf.exit_code == 0
            &&& env.results.mismatch_count <= m[env.crate_name@]
            &&& env.results.baseline.pass + env.results.baseline.fail == env.results.lihaaf.pass
                + env.results.lihaaf.fail + env.excluded_fixtures@.len()
        },
{
}

proof fn lemma_prefix_of_concat(a: Seq<char>, b: Seq<char>)
    ensures
        has_prefix(a + b, a),
{
    assert((a + b).subrange(0, a.len() as int) =~= a);
}

/// A blocked run is reported by the first rule it breaks, in the order
/// the rules are checked: recorded errors, unrecognized libtest lines, the baseline's exit
/// code, the lihaaf run's exit code, the ceiling, then the totals.
pub proof fn lemma_gate_reports_first_rule(m: Map<Seq<char>, u32>, env: CompatEnvelope)
    ensures
        gate_spec(m, env) matches Some(Some(msg)) ==> {
            let res = env.results;
            &&& env.errors@.len() > 0 ==> has_prefix(msg, "envelope.errors carries "@)
            &&& env.errors@.len() == 0 && res.baseline.unknown_count != 0 ==> has_prefix(msg, "baseline.unknown_count = "@)
            &&& env.errors@.len() == 0 && res.baseline.unknown_count == 0 && res.baseline.exit_code != 0
                ==> has_prefix(msg, "baseline.exit_code = "@)
            &&& env.errors@.len() == 0 && res.baseline.unknown_count == 0 && res.baseline.exit_code == 0
                && res.lihaaf.exit_code != 0 ==> has_prefix(msg, "lihaaf.exit_code = "@)
            &&& env.errors@.len() == 0 && res.baseline.unknown_count == 0 && res.baseline.exit_code == 0
                && res.lihaaf.exit_code == 0 && res.mismatch_count > m[env.crate_name@] ==> has_prefix(
                msg,
                "mismatch_count = "@,
            )
            &&& env.errors@.len() == 0 && res.baseline.unknown_count == 0 && res.baseline.exit_code == 0
                && res.lihaaf.exit_code == 0 && res.mismatch_count <= m[env.crate_name@] ==> has_prefix(
                msg,
                "per-side totals diverge: baseline.pass+fail = "@,
            )
        },
{
    if let Some(Some(msg)) = gate_spec(m, env) {
        let res = env.results;
        if env.errors@.len() > 0 {
            let t = decimal(env.errors@.len()) + ERRORS_TAIL@ + env.errors@[0].error_type@ + "` detail=`"@
                + env.errors@[0].detail@ + "`"@;
            assert(msg =~= "envelope.errors carries "@ + t);
            lemma_prefix_of_concat("envelope.errors carries "@, t);
        } else if res.baseline.unknown_count != 0 {
            let t = decimal(res.baseline.unknown_count as nat) + UNKNOWN_TAIL@;
            assert(msg =~= "baseline.unknown_count = "@ + t);
            lemma_prefix_of_concat("baseline.unknown_count = "@, t);
        } else if res.baseline.exit_code != 0 {
            let t = signed_decimal(res.baseline.exit_code as int) + BASELINE_EXIT_TAIL@;
            assert(msg =~= "baseline.exit_code = "@ + t);
            lemma_prefix_of_concat("baseline.exit_code = "@, t);
        } else if res.lihaaf.exit_code != 0 {
            let t = signed_decimal(res.lihaaf.exit_code as int) + LIHAAF_EXIT_TAIL@;
            assert(msg =~= "lihaaf.exit_code = "@ + t);
            lemma_prefix_of_concat("lihaaf.exit_code = "@, t);
        } else if res.mismatch_count > m[env.crate_name@] {
            let t = decimal(res.mismatch_count as nat) + " exceeds ceiling `"@ + env.crate_name@ + ".n_max = "@
                + decimal(m[env.crate_name@] as nat) + CEILING_TAIL@;
            assert(msg =~= "mismatch_count = "@ + t);
            lemma_prefix_of_concat("mismatch_count = "@, t);
        } else {
            let t = decimal(baseline_total(env)) + " but lihaaf.pass+fail = "@ + decimal(lihaaf_total(env))
                + " and excluded_fixtures.len() = "@ + decimal(env.excluded_fixtures@.len()) + TOTALS_TAIL@;
            assert(msg =~= "per-side totals diverge: baseline.pass+fail = "@ + t);
            lemma_prefix_of_concat("per-side totals diverge: baseline.pass+fail = "@, t);
        }
    }
}

} // verus!
