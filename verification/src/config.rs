//! `[package.metadata.lihaaf]` parsing and validation.
//!
//! The top-level table is the implicit `default` suite; each
//! `[[package.metadata.lihaaf.suite]]` entry adds a named suite that
//! inherits most keys from the default suite (but not `features`,
//! `extra_substitutions`, `strip_lines` or `strip_line_prefixes`).
use vstd::prelude::*;
use crate::config_msg::{
    bad_name_message, bad_name_text, could_not_parse_message, could_not_parse_text,
    duplicate_name_message, duplicate_name_text, edition_message, edition_text, entry_message,
    entry_text, extern_mismatch_message, extern_mismatch_text, format_invalid_key,
    indexed_message, indexed_text, indexed_value_message, indexed_value_text, invalid_key_text,
    labelled_message, lint_entry_message, lint_entry_text, missing_metadata_message,
    shared_dir_message, shared_dir_text, suite_extern_mismatch_message,
    suite_extern_mismatch_text, suite_message, suite_text, BAD_NAME_TAIL, DUPLICATE_TAIL,
    DYLIB_NUL_TEXT, EDITION_TAIL, ENTRY_MISSING_NAME, ENTRY_SETS_DYLIB, EXTERN_LINK_WHY,
    FEATURE_EMPTY, FEATURE_NUL, LINT_DASH_TAIL, LINT_EMPTY, LINT_NUL, LINT_TOKEN_TAIL,
    MISSING_METADATA_TEXT, RESERVED_NAME_TEXT, SHARED_DIR_TAIL, STRIP_NEWLINE, STRIP_SHAPE_MID,
    STRIP_SHAPE_TAIL, SUB_FROM_EMPTY, SUB_FROM_NOT_PATH_MID, SUB_FROM_NOT_PATH_TAIL,
    SUB_MISSING_FROM, SUB_MISSING_TO, SUB_TO_NEWLINE, SUITE_DIRS_EMPTY, SUITE_DIRS_REQUIRED,
    SUITE_EXTERN_EMPTY, SUITE_MEMORY_ZERO, SUITE_TIMEOUT_ZERO,
};
use crate::error::{Error, Outcome};
use crate::normalize::Substitution;
use crate::toml_model::{has_key, node_text, parse_toml_document, string_list, subtree, toml_document, toml_as_array, toml_get, toml_is_table, toml_seq_error, toml_table_error, toml_to_string, toml_to_string_list, toml_to_u32, toml_tree, tree_root, TomlNode, TomlSeg};
use crate::paths::{comps_eq, comps_view, derive_manifest_root, dir_key, fixture_dir_key, manifest_root, Comp, PathComp};
use crate::text::{
    char_is_ascii_alnum, char_is_ascii_upper, char_is_whitespace, chars_of, contains_char,
    contains_str, has_infix, has_prefix, is_ascii_alnum, is_ascii_upper, is_white_space, push_str,
    starts_with_str, str_eq,
};

verus! {

/// Default `fixture_dirs`: the compile-fail directory.
pub const DEFAULT_COMPILE_FAIL_DIR: &'static str = "tests/lihaaf/compile_fail";

/// Default `fixture_dirs`: the compile-pass directory.
pub const DEFAULT_COMPILE_PASS_DIR: &'static str = "tests/lihaaf/compile_pass";

/// Default value for `compile_fail_marker`.
pub const DEFAULT_COMPILE_FAIL_MARKER: &'static str = "compile_fail";

/// Default value for `edition`.
pub const DEFAULT_EDITION: &'static str = "2021";

/// Default value for `fixture_timeout_secs`.
pub const DEFAULT_FIXTURE_TIMEOUT_SECS: u32 = 90;

/// Default value for `per_fixture_memory_mb`.
pub const DEFAULT_PER_FIXTURE_MEMORY_MB: u32 = 1024;

/// Name of the implicit suite built from the top-level table.
pub const DEFAULT_SUITE_NAME: &'static str = "default";

/// Bytes UTF-8 spends on one character.
pub open spec fn utf8_width(c: char) -> nat {
    if (c as u32) < 0x80 {
        1
    } else if (c as u32) < 0x800 {
        2
    } else if (c as u32) < 0x10000 {
        3
    } else {
        4
    }
}

/// UTF-8 length of a string, in bytes.
pub open spec fn byte_len(s: Seq<char>) -> nat
    decreases s.len(),
{
    if s.len() == 0 {
        0
    } else {
        byte_len(s.drop_last()) + utf8_width(s.last())
    }
}

/// Does the UTF-8 encoding of `cs` take at least `k` bytes?
fn byte_len_at_least(cs: &Vec<char>, k: usize) -> (r: bool)
    ensures
        r == (byte_len(cs@) >= k),
{
    if k == 0 {
        return true;
    }
    let mut total: usize = 0;
    let mut i: usize = 0;
    proof {
        assert(cs@.subrange(0, 0) =~= Seq::<char>::empty());
    }
    while i < cs.len()
        invariant
            i <= cs@.len(),
            total == byte_len(cs@.subrange(0, i as int)),
            total < k,
        decreases cs@.len() - i,
    {
        let c = cs[i];
        let code = c as u32;
        let w: usize = if code < 0x80 {
            1
        } else if code < 0x800 {
            2
        } else if code < 0x10000 {
            3
        } else {
            4
        };
        proof {
            let sub = cs@.subrange(0, i + 1);
            assert(sub.drop_last() =~= cs@.subrange(0, i as int));
            assert(sub.last() == c);
        }
        if w >= k - total {
            proof {
                lemma_byte_len_prefix_mono(cs@, i + 1);
            }
            return true;
        }
        total = total + w;
        i = i + 1;
    }
    proof {
        assert(cs@.subrange(0, i as int) =~= cs@);
    }
    false
}

proof fn lemma_byte_len_prefix_mono(s: Seq<char>, n: int)
    requires
        0 <= n <= s.len(),
    ensures
        byte_len(s.subrange(0, n)) <= byte_len(s),
    decreases s.len() - n,
{
    if n < s.len() {
        lemma_byte_len_prefix_mono(s, n + 1);
        let sub = s.subrange(0, n + 1);
        assert(sub.drop_last() =~= s.subrange(0, n));
    } else {
        assert(s.subrange(0, n) =~= s);
    }
}

/// `$` followed by an ASCII capital and only `[A-Za-z0-9_]` after it.
pub open spec fn complete_placeholder(s: Seq<char>) -> bool {
    &&& s.len() >= 2
    &&& s[0] == '$'
    &&& is_ascii_upper(s[1])
    &&& forall|i: int| 2 <= i < s.len() ==> is_ascii_alnum(#[trigger] s[i]) || s[i] == '_'
}

/// Path-shaped: at least two bytes, one line, a leading `$` only before an
/// ASCII capital, and a `/`, a `\`, or a whole placeholder token.
pub open spec fn path_like(s: Seq<char>) -> bool {
    &&& byte_len(s) >= 2
    &&& !s.contains('\n')
    &&& !(s.len() >= 1 && s[0] == '$' && !(s.len() >= 2 && is_ascii_upper(s[1])))
    &&& (s.contains('/') || s.contains('\\') || complete_placeholder(s))
}

pub open spec fn banner_anti_prefix(s: Seq<char>) -> bool {
    ||| has_prefix(s, "expected "@)
    ||| has_prefix(s, "found "@)
    ||| has_prefix(s, "the trait "@)
    ||| has_prefix(s, "the type "@)
    ||| has_prefix(s, "cannot find "@)
    ||| has_prefix(s, "mismatched types"@)
    ||| has_prefix(s, "consider "@)
    ||| has_prefix(s, "help: "@)
    ||| has_prefix(s, "warning: "@)
    ||| has_prefix(s, "error["@)
    ||| has_prefix(s, "  "@)
}

pub open spec fn banner_prefix(s: Seq<char>) -> bool {
    ||| has_prefix(s, "For more information about this error"@)
    ||| has_prefix(s, "error: aborting due to "@)
    ||| has_prefix(s, "note: this error originates from "@)
    ||| has_prefix(s, "info: "@)
    ||| has_prefix(s, "linker version: "@)
}

pub open spec fn structural_marker(s: Seq<char>) -> bool {
    ||| has_infix(s, "deprecated"@)
    ||| has_infix(s, "deprecation"@)
    ||| has_infix(s, "Please update"@)
    ||| has_infix(s, "actions to use"@)
    ||| has_infix(s, "EOL"@)
    ||| has_infix(s, "end-of-life"@)
}

/// Banner-shaped: a one-line string of at least 20 bytes that does not open
/// like a diagnostic body, and either opens with a known banner prefix or is
/// a capitalised sentence of at least 40 bytes naming a deprecation marker.
pub open spec fn banner_shape(s: Seq<char>) -> bool {
    &&& byte_len(s) >= 20
    &&& !s.contains('\n')
    &&& s.len() > 0
    &&& s[0] != ' ' && s[0] != '\t'
    &&& s[0] != '^' && s[0] != '=' && s[0] != '|'
    &&& !banner_anti_prefix(s)
    &&& (banner_prefix(s) || (byte_len(s) >= 40 && is_ascii_upper(s[0]) && s.contains(' ')
        && structural_marker(s)))
}

/// True iff `s` is a complete placeholder token (`^\$[A-Z][A-Za-z0-9_]*$`).
pub fn is_complete_placeholder_token(s: &str) -> (r: bool)
    ensures
        r == complete_placeholder(s@),
{
    let cs = chars_of(s);
    if cs.len() < 2 {
        return false;
    }
    if cs[0] != '$' {
        return false;
    }
    if !char_is_ascii_upper(cs[1]) {
        return false;
    }
    let mut i: usize = 2;
    while i < cs.len()
        invariant
            cs@ == s@,
            2 <= i <= cs@.len(),
            forall|j: int| 2 <= j < i ==> is_ascii_alnum(#[trigger] cs@[j]) || cs@[j] == '_',
        decreases cs@.len() - i,
    {
        let c = cs[i];
        if !(char_is_ascii_alnum(c) || c == '_') {
            return false;
        }
        i = i + 1;
    }
    true
}

/// True iff `s` is path-shaped (see [`path_like`]).
pub fn is_path_like(s: &str) -> (r: bool)
    ensures
        r == path_like(s@),
{
    let cs = chars_of(s);
    if !byte_len_at_least(&cs, 2) {
        return false;
    }
    if contains_char(&cs, '\n') {
        return false;
    }
    if cs.len() >= 1 && cs[0] == '$' && !(cs.len() >= 2 && char_is_ascii_upper(cs[1])) {
        return false;
    }
    if contains_char(&cs, '/') || contains_char(&cs, '\\') {
        return true;
    }
    is_complete_placeholder_token(s)
}

fn has_banner_anti_prefix(cs: &Vec<char>) -> (r: bool)
    ensures
        r == banner_anti_prefix(cs@),
{
    starts_with_str(cs, "expected ") || starts_with_str(cs, "found ") || starts_with_str(cs, "the trait ")
        || starts_with_str(cs, "the type ") || starts_with_str(cs, "cannot find ") || starts_with_str(
        cs,
        "mismatched types",
    ) || starts_with_str(cs, "consider ") || starts_with_str(cs, "help: ") || starts_with_str(
        cs,
        "warning: ",
    ) || starts_with_str(cs, "error[") || starts_with_str(cs, "  ")
}

fn has_banner_prefix(cs: &Vec<char>) -> (r: bool)
    ensures
        r == banner_prefix(cs@),
{
    starts_with_str(cs, "For more information about this error") || starts_with_str(
        cs,
        "error: aborting due to ",
    ) || starts_with_str(cs, "note: this error originates from ") || starts_with_str(cs, "info: ")
        || starts_with_str(cs, "linker version: ")
}

fn has_structural_marker(cs: &Vec<char>) -> (r: bool)
    ensures
        r == structural_marker(cs@),
{
    contains_str(cs, "deprecated") || contains_str(cs, "deprecation") || contains_str(cs, "Please update")
        || contains_str(cs, "actions to use") || contains_str(cs, "EOL") || contains_str(cs, "end-of-life")
}

/// True iff `s` is banner-shaped (see [`banner_shape`]).
pub fn is_banner_shape(s: &str) -> (r: bool)
    ensures
        r == banner_shape(s@),
{
    let cs = chars_of(s);
    if !byte_len_at_least(&cs, 20) {
        return false;
    }
    if contains_char(&cs, '\n') {
        return false;
    }
    if cs.len() == 0 {
        return false;
    }
    let first = cs[0];
    if first == ' ' || first == '\t' {
        return false;
    }
    if first == '^' || first == '=' || first == '|' {
        return false;
    }
    if has_banner_anti_prefix(&cs) {
        return false;
    }
    if has_banner_prefix(&cs) {
        return true;
    }
    if byte_len_at_least(&cs, 40) && char_is_ascii_upper(first) && contains_char(&cs, ' ') && has_structural_marker(&cs) {
        return true;
    }
    false
}

} // verus!

verus! {

/// `r` is `Ok` when `e` is `None`, and otherwise the `ConfigInvalid`
/// outcome carrying message `e`.
pub open spec fn check_result(r: Result<(), Error>, e: Option<Seq<char>>) -> bool {
    match e {
        None => r is Ok,
        Some(m) => r matches Err(Error::Session(Outcome::ConfigInvalid { message })) && message@ == m,
    }
}

/// A `ConfigInvalid` session error with message `m`.
pub open spec fn is_config_error<T>(r: Result<T, Error>, m: Seq<char>) -> bool {
    r matches Err(Error::Session(Outcome::ConfigInvalid { message })) && message@ == m
}

pub open spec fn lint_token_char(c: char) -> bool {
    is_white_space(c) || c == '"' || c == '\'' || c == '\\'
}

/// Problem with one `allow_lints` entry, if any.
pub open spec fn lint_error(label: Seq<char>, lint: Seq<char>) -> Option<Seq<char>> {
    if lint.len() == 0 {
        Some(label + LINT_EMPTY@)
    } else if lint.contains('\0') {
        Some(label + LINT_NUL@)
    } else if lint[0] == '-' {
        Some(lint_entry_text(label, lint, LINT_DASH_TAIL@))
    } else if exists|i: int| 0 <= i < lint.len() && lint_token_char(#[trigger] lint[i]) {
        Some(lint_entry_text(label, lint, LINT_TOKEN_TAIL@))
    } else {
        None
    }
}

/// First problem among `items[i..]`, checked in order with `check`.
pub open spec fn first_error(items: Seq<Seq<char>>, i: int, check: spec_fn(Seq<char>) -> Option<Seq<char>>) -> Option<Seq<char>>
    decreases items.len() - i,
{
    if i < 0 || i >= items.len() {
        None
    } else {
        match check(items[i]) {
            Some(m) => Some(m),
            None => first_error(items, i + 1, check),
        }
    }
}

pub open spec fn lints_error(label: Seq<char>, lints: Seq<Seq<char>>) -> Option<Seq<char>> {
    first_error(lints, 0, |l: Seq<char>| lint_error(label, l))
}

/// Problem with one `features` entry, if any.
pub open spec fn feature_error(label: Seq<char>, f: Seq<char>) -> Option<Seq<char>> {
    if f.len() == 0 {
        Some(label + FEATURE_EMPTY@)
    } else if f.contains('\0') {
        Some(label + FEATURE_NUL@)
    } else {
        None
    }
}

pub open spec fn features_error(label: Seq<char>, fs: Seq<Seq<char>>) -> Option<Seq<char>> {
    first_error(fs, 0, |f: Seq<char>| feature_error(label, f))
}

pub open spec fn allowed_edition(e: Seq<char>) -> bool {
    e == "2015"@ || e == "2018"@ || e == "2021"@ || e == "2024"@
}

pub open spec fn edition_error(label: Seq<char>, e: Seq<char>) -> Option<Seq<char>> {
    if allowed_edition(e) {
        None
    } else {
        Some(edition_text(label, e))
    }
}

pub open spec fn name_char_ok(c: char) -> bool {
    is_ascii_alnum(c) || c == '-' || c == '_'
}

/// Problem with the name of named-suite entry `index`, if any.
pub open spec fn suite_name_error(index: nat, name: Seq<char>) -> Option<Seq<char>> {
    if name.len() == 0 {
        Some(entry_text(index, ENTRY_MISSING_NAME@))
    } else if name == DEFAULT_SUITE_NAME@ {
        Some(RESERVED_NAME_TEXT@)
    } else if !(forall|i: int| 0 <= i < name.len() ==> name_char_ok(#[trigger] name[i])) {
        Some(bad_name_text(name))
    } else {
        None
    }
}

fn config_err(message: String) -> (r: Result<(), Error>)
    ensures
        r == Err::<(), Error>(Error::Session(Outcome::ConfigInvalid { message })),
{
    Err(Error::Session(Outcome::ConfigInvalid { message }))
}

pub fn validate_allow_lints(suite_label: &str, lints: &Vec<String>) -> (r: Result<(), Error>)
    ensures
        check_result(r, lints_error(suite_label@, lints.deep_view())),
{
    let ghost ls = lints.deep_view();
    let mut i: usize = 0;
    while i < lints.len()
        invariant
            ls == lints.deep_view(),
            i <= ls.len(),
            lints_error(suite_label@, ls) == first_error(ls, i as int, |l: Seq<char>| lint_error(suite_label@, l)),
        decreases ls.len() - i,
    {
        let lint = lints[i].as_str();
        let cs = chars_of(lint);
        assert(ls[i as int] == lint@);
        if cs.len() == 0 {
            return config_err(labelled_message(suite_label, LINT_EMPTY));
        }
        if contains_char(&cs, '\0') {
            return config_err(labelled_message(suite_label, LINT_NUL));
        }
        if cs[0] == '-' {
            return config_err(lint_entry_message(suite_label, lint, LINT_DASH_TAIL));
        }
        let mut j: usize = 0;
        while j < cs.len()
            invariant
                cs@ == lint@,
                ls == lints.deep_view(),
                i < ls.len(),
                ls[i as int] == lint@,
                lints_error(suite_label@, ls) == first_error(ls, i as int, |l: Seq<char>| lint_error(suite_label@, l)),
                cs@.len() > 0,
                !cs@.contains('\0'),
                cs@[0] != '-',
                j <= cs@.len(),
                forall|q: int| 0 <= q < j ==> !lint_token_char(#[trigger] cs@[q]),
            decreases cs@.len() - j,
        {
            let c = cs[j];
            if char_is_whitespace(c) || c == '"' || c == '\'' || c == '\\' {
                assert(lint_token_char(cs@[j as int]));
                return config_err(lint_entry_message(suite_label, lint, LINT_TOKEN_TAIL));
            }
            j = j + 1;
        }
        i = i + 1;
    }
    Ok(())
}

pub fn validate_features(suite_label: &str, features: &Vec<String>) -> (r: Result<(), Error>)
    ensures
        check_result(r, features_error(suite_label@, features.deep_view())),
{
    let ghost fs = features.deep_view();
    let mut i: usize = 0;
    while i < features.len()
        invariant
            fs == features.deep_view(),
            i <= fs.len(),
            features_error(suite_label@, fs) == first_error(fs, i as int, |f: Seq<char>| feature_error(suite_label@, f)),
        decreases fs.len() - i,
    {
        let f = features[i].as_str();
        let cs = chars_of(f);
        assert(fs[i as int] == f@);
        if cs.len() == 0 {
            return config_err(labelled_message(suite_label, FEATURE_EMPTY));
        }
        if contains_char(&cs, '\0') {
            return config_err(labelled_message(suite_label, FEATURE_NUL));
        }
        i = i + 1;
    }
    Ok(())
}

pub fn validate_edition(suite_label: &str, edition: &str) -> (r: Result<(), Error>)
    ensures
        check_result(r, edition_error(suite_label@, edition@)),
{
    if str_eq(edition, "2015") || str_eq(edition, "2018") || str_eq(edition, "2021") || str_eq(edition, "2024") {
        return Ok(());
    }
    config_err(edition_message(suite_label, edition))
}

pub fn validate_named_suite_name(index: usize, name: &str) -> (r: Result<(), Error>)
    ensures
        check_result(r, suite_name_error(index as nat, name@)),
{
    let cs = chars_of(name);
    if cs.len() == 0 {
        return config_err(entry_message(index, ENTRY_MISSING_NAME));
    }
    if str_eq(name, DEFAULT_SUITE_NAME) {
        let mut m = String::new();
        push_str(&mut m, RESERVED_NAME_TEXT);
        return config_err(m);
    }
    let mut i: usize = 0;
    while i < cs.len()
        invariant
            cs@ == name@,
            cs@.len() > 0,
            name@ != DEFAULT_SUITE_NAME@,
            i <= cs@.len(),
            forall|q: int| 0 <= q < i ==> name_char_ok(#[trigger] cs@[q]),
        decreases cs@.len() - i,
    {
        let c = cs[i];
        if !(char_is_ascii_alnum(c) || c == '-' || c == '_') {
            assert(!name_char_ok(cs@[i as int]));
            return config_err(bad_name_message(name));
        }
        i = i + 1;
    }
    Ok(())
}

} // verus!

verus! {

/// First problem among `items[i..]`, where the check also sees the index.
pub open spec fn first_indexed_error<T>(items: Seq<T>, i: int, check: spec_fn(int, T) -> Option<Seq<char>>) -> Option<Seq<char>>
    decreases items.len() - i,
{
    if i < 0 || i >= items.len() {
        None
    } else {
        match check(i, items[i]) {
            Some(m) => Some(m),
            None => first_indexed_error(items, i + 1, check),
        }
    }
}

/// The (from, to) pairs of a list of substitutions.
pub open spec fn subs_view(v: Seq<Substitution>) -> Seq<(Seq<char>, Seq<char>)> {
    Seq::new(v.len(), |i: int| (v[i].from@, v[i].to@))
}

/// An `extra_substitutions` entry as written: either key may be missing.
#[derive(Debug, Clone)]
pub struct RawSubstitution {
    pub from: Option<String>,
    pub to: Option<String>,
}

pub open spec fn opt_view(o: Option<String>) -> Option<Seq<char>> {
    match o {
        Some(s) => Some(s@),
        None => None,
    }
}

pub open spec fn raw_subs_view(v: Seq<RawSubstitution>) -> Seq<(Option<Seq<char>>, Option<Seq<char>>)> {
    Seq::new(v.len(), |i: int| (opt_view(v[i].from), opt_view(v[i].to)))
}

/// Problem with raw entry `i`: a missing `from` or `to`.
pub open spec fn raw_sub_error(label: Seq<char>, i: int, e: (Option<Seq<char>>, Option<Seq<char>>)) -> Option<Seq<char>> {
    if e.0 is None {
        Some(indexed_text(label, "extra_substitutions"@, i as nat, SUB_MISSING_FROM@))
    } else if e.1 is None {
        Some(indexed_text(label, "extra_substitutions"@, i as nat, SUB_MISSING_TO@))
    } else {
        None
    }
}

pub open spec fn raw_subs_error(label: Seq<char>, raws: Seq<(Option<Seq<char>>, Option<Seq<char>>)>) -> Option<Seq<char>> {
    first_indexed_error(raws, 0, |i: int, e: (Option<Seq<char>>, Option<Seq<char>>)| raw_sub_error(label, i, e))
}

/// The complete entries, once none is missing a key.
pub open spec fn completed_subs(raws: Seq<(Option<Seq<char>>, Option<Seq<char>>)>) -> Seq<(Seq<char>, Seq<char>)> {
    Seq::new(raws.len(), |i: int| (raws[i].0->0, raws[i].1->0))
}

/// Problem with validated entry `i`, if any.
pub open spec fn sub_error(label: Seq<char>, i: int, e: (Seq<char>, Seq<char>)) -> Option<Seq<char>> {
    if e.0.len() == 0 {
        Some(indexed_text(label, "extra_substitutions"@, i as nat, SUB_FROM_EMPTY@))
    } else if !path_like(e.0) {
        Some(indexed_value_text(label, "extra_substitutions"@, i as nat, SUB_FROM_NOT_PATH_MID@, e.0, SUB_FROM_NOT_PATH_TAIL@))
    } else if e.1.contains('\n') {
        Some(indexed_text(label, "extra_substitutions"@, i as nat, SUB_TO_NEWLINE@))
    } else {
        None
    }
}

pub open spec fn subs_error(label: Seq<char>, subs: Seq<(Seq<char>, Seq<char>)>) -> Option<Seq<char>> {
    first_indexed_error(subs, 0, |i: int, e: (Seq<char>, Seq<char>)| sub_error(label, i, e))
}

/// Problem with strip pattern `i` under `key`, if any.
pub open spec fn strip_error(label: Seq<char>, key: Seq<char>, i: int, p: Seq<char>) -> Option<Seq<char>> {
    if p.contains('\n') {
        Some(indexed_text(label, key, i as nat, STRIP_NEWLINE@))
    } else if !path_like(p) && !banner_shape(p) {
        Some(indexed_value_text(label, key, i as nat, STRIP_SHAPE_MID@, p, STRIP_SHAPE_TAIL@))
    } else {
        None
    }
}

pub open spec fn strips_error(label: Seq<char>, key: Seq<char>, pats: Seq<Seq<char>>) -> Option<Seq<char>> {
    first_indexed_error(pats, 0, |i: int, p: Seq<char>| strip_error(label, key, i, p))
}

pub fn finalize_substitutions(suite_label: &str, raw: Vec<RawSubstitution>) -> (r: Result<Vec<Substitution>, Error>)
    ensures
        match raw_subs_error(suite_label@, raw_subs_view(raw@)) {
            None => r matches Ok(v) && subs_view(v@) == completed_subs(raw_subs_view(raw@)),
            Some(m) => is_config_error(r, m),
        },
{
    let ghost rv = raw_subs_view(raw@);
    let mut out: Vec<Substitution> = Vec::new();
    let mut i: usize = 0;
    while i < raw.len()
        invariant
            rv == raw_subs_view(raw@),
            i <= raw@.len(),
            raw_subs_error(suite_label@, rv) == first_indexed_error(rv, i as int, |k: int, e: (Option<Seq<char>>, Option<Seq<char>>)| raw_sub_error(suite_label@, k, e)),
            forall|k: int| 0 <= k < i ==> raw_sub_error(suite_label@, k, #[trigger] rv[k]) is None,
            subs_view(out@) == completed_subs(rv).subrange(0, i as int),
        decreases raw@.len() - i,
    {
        let entry = &raw[i];
        assert(rv[i as int] == (opt_view(entry.from), opt_view(entry.to)));
        let from = match &entry.from {
            Some(f) => f.clone(),
            None => {
                return Err(Error::Session(Outcome::ConfigInvalid { message: indexed_message(suite_label, "extra_substitutions", i, SUB_MISSING_FROM) }));
            },
        };
        let to = match &entry.to {
            Some(t) => t.clone(),
            None => {
                return Err(Error::Session(Outcome::ConfigInvalid { message: indexed_message(suite_label, "extra_substitutions", i, SUB_MISSING_TO) }));
            },
        };
        assert(from@ == rv[i as int].0->0);
        assert(to@ == rv[i as int].1->0);
        let sub = Substitution { from, to };
        let ghost gsub = sub;
        let ghost before = out@;
        out.push(sub);
        proof {
            assert(out@ == before.push(gsub));
            assert(subs_view(out@) =~= subs_view(before).push((gsub.from@, gsub.to@)));
            assert(completed_subs(rv).subrange(0, i + 1) =~= completed_subs(rv).subrange(0, i as int).push(completed_subs(rv)[i as int]));
        }
        i = i + 1;
    }
    proof {
        assert(completed_subs(rv).subrange(0, i as int) =~= completed_subs(rv));
    }
    Ok(out)
}

pub fn validate_extra_substitutions(suite_label: &str, subs: &Vec<Substitution>) -> (r: Result<(), Error>)
    ensures
        check_result(r, subs_error(suite_label@, subs_view(subs@))),
{
    let ghost sv = subs_view(subs@);
    let mut i: usize = 0;
    while i < subs.len()
        invariant
            sv == subs_view(subs@),
            i <= subs@.len(),
            subs_error(suite_label@, sv) == first_indexed_error(sv, i as int, |k: int, e: (Seq<char>, Seq<char>)| sub_error(suite_label@, k, e)),
        decreases subs@.len() - i,
    {
        let sub = &subs[i];
        assert(sv[i as int] == (sub.from@, sub.to@));
        let from = sub.from.as_str();
        if from.is_empty() {
            return config_err(indexed_message(suite_label, "extra_substitutions", i, SUB_FROM_EMPTY));
        }
        if !is_path_like(from) {
            return config_err(indexed_value_message(suite_label, "extra_substitutions", i, SUB_FROM_NOT_PATH_MID, from, SUB_FROM_NOT_PATH_TAIL));
        }
        let to_chars = chars_of(sub.to.as_str());
        if contains_char(&to_chars, '\n') {
            return config_err(indexed_message(suite_label, "extra_substitutions", i, SUB_TO_NEWLINE));
        }
        i = i + 1;
    }
    Ok(())
}

pub fn validate_strip_patterns(suite_label: &str, key_label: &str, patterns: &Vec<String>) -> (r: Result<(), Error>)
    ensures
        check_result(r, strips_error(suite_label@, key_label@, patterns.deep_view())),
{
    let ghost pv = patterns.deep_view();
    let mut i: usize = 0;
    while i < patterns.len()
        invariant
            pv == patterns.deep_view(),
            i <= pv.len(),
            strips_error(suite_label@, key_label@, pv) == first_indexed_error(pv, i as int, |k: int, p: Seq<char>| strip_error(suite_label@, key_label@, k, p)),
        decreases pv.len() - i,
    {
        let pat = patterns[i].as_str();
        assert(pv[i as int] == pat@);
        let cs = chars_of(pat);
        if contains_char(&cs, '\n') {
            return config_err(indexed_message(suite_label, key_label, i, STRIP_NEWLINE));
        }
        if !is_path_like(pat) && !is_banner_shape(pat) {
            return config_err(indexed_value_message(suite_label, key_label, i, STRIP_SHAPE_MID, pat, STRIP_SHAPE_TAIL));
        }
        i = i + 1;
    }
    Ok(())
}

pub open spec fn dylib_error(d: Seq<char>) -> Option<Seq<char>> {
    if d.contains('\0') {
        Some(DYLIB_NUL_TEXT@)
    } else {
        None
    }
}

pub fn validate_dylib_crate(dylib_crate: &str) -> (r: Result<(), Error>)
    ensures
        check_result(r, dylib_error(dylib_crate@)),
{
    let cs = chars_of(dylib_crate);
    if contains_char(&cs, '\0') {
        let mut m = String::new();
        push_str(&mut m, DYLIB_NUL_TEXT);
        return config_err(m);
    }
    Ok(())
}

} // verus!

verus! {

/// One feature-subset suite with every inherited value resolved.
#[derive(Debug, Clone)]
pub struct Suite {
    pub name: String,
    pub extern_crates: Vec<String>,
    pub fixture_dirs: Vec<String>,
    pub features: Vec<String>,
    pub edition: String,
    pub dev_deps: Vec<String>,
    pub compile_fail_marker: String,
    pub fixture_timeout_secs: u32,
    pub per_fixture_memory_mb: u32,
    pub allow_lints: Vec<String>,
    pub extra_substitutions: Vec<Substitution>,
    pub strip_lines: Vec<String>,
    pub strip_line_prefixes: Vec<String>,
}

/// A suite as plain sequences.
pub struct SuiteView {
    pub name: Seq<char>,
    pub extern_crates: Seq<Seq<char>>,
    pub fixture_dirs: Seq<Seq<char>>,
    pub features: Seq<Seq<char>>,
    pub edition: Seq<char>,
    pub dev_deps: Seq<Seq<char>>,
    pub compile_fail_marker: Seq<char>,
    pub fixture_timeout_secs: u32,
    pub per_fixture_memory_mb: u32,
    pub allow_lints: Seq<Seq<char>>,
    pub extra_substitutions: Seq<(Seq<char>, Seq<char>)>,
    pub strip_lines: Seq<Seq<char>>,
    pub strip_line_prefixes: Seq<Seq<char>>,
}

impl View for Suite {
    type V = SuiteView;

    open spec fn view(&self) -> SuiteView {
        SuiteView {
            name: self.name@,
            extern_crates: self.extern_crates.deep_view(),
            fixture_dirs: self.fixture_dirs.deep_view(),
            features: self.features.deep_view(),
            edition: self.edition@,
            dev_deps: self.dev_deps.deep_view(),
            compile_fail_marker: self.compile_fail_marker@,
            fixture_timeout_secs: self.fixture_timeout_secs,
            per_fixture_memory_mb: self.per_fixture_memory_mb,
            allow_lints: self.allow_lints.deep_view(),
            extra_substitutions: subs_view(self.extra_substitutions@),
            strip_lines: self.strip_lines.deep_view(),
            strip_line_prefixes: self.strip_line_prefixes.deep_view(),
        }
    }
}

impl Suite {
    /// True for the implicit suite built from the top-level table.
    pub fn is_default(&self) -> (r: bool)
        ensures
            r == (self.name@ == DEFAULT_SUITE_NAME@),
    {
        str_eq(self.name.as_str(), DEFAULT_SUITE_NAME)
    }
}

/// One `[[package.metadata.lihaaf.suite]]` entry as written.
#[derive(Debug, Clone)]
pub struct RawSuite {
    pub name: Option<String>,
    pub extern_crates: Option<Vec<String>>,
    pub fixture_dirs: Option<Vec<String>>,
    pub features: Option<Vec<String>>,
    pub edition: Option<String>,
    pub dev_deps: Option<Vec<String>>,
    pub compile_fail_marker: Option<String>,
    pub fixture_timeout_secs: Option<u32>,
    pub per_fixture_memory_mb: Option<u32>,
    pub allow_lints: Option<Vec<String>>,
    pub extra_substitutions: Option<Vec<RawSubstitution>>,
    pub strip_lines: Option<Vec<String>>,
    pub strip_line_prefixes: Option<Vec<String>>,
    /// Not a per-suite key; present only to be refused.
    pub dylib_crate: Option<String>,
}

/// `[package.metadata.lihaaf]` as written, before defaults and validation.
#[derive(Debug, Clone)]
pub struct RawMetadata {
    pub dylib_crate: Option<String>,
    pub extern_crates: Option<Vec<String>>,
    pub fixture_dirs: Option<Vec<String>>,
    pub features: Option<Vec<String>>,
    pub edition: Option<String>,
    pub dev_deps: Option<Vec<String>>,
    pub compile_fail_marker: Option<String>,
    pub fixture_timeout_secs: Option<u32>,
    pub per_fixture_memory_mb: Option<u32>,
    pub allow_lints: Option<Vec<String>>,
    pub extra_substitutions: Option<Vec<RawSubstitution>>,
    pub strip_lines: Option<Vec<String>>,
    pub strip_line_prefixes: Option<Vec<String>>,
    pub suite: Vec<RawSuite>,
}

pub open spec fn list_or(o: Option<Vec<String>>, d: Seq<Seq<char>>) -> Seq<Seq<char>> {
    match o {
        Some(v) => v.deep_view(),
        None => d,
    }
}

pub open spec fn str_or(o: Option<String>, d: Seq<char>) -> Seq<char> {
    match o {
        Some(s) => s@,
        None => d,
    }
}

pub open spec fn u32_or(o: Option<u32>, d: u32) -> u32 {
    match o {
        Some(n) => n,
        None => d,
    }
}

pub open spec fn raw_subs_or_empty(o: Option<Vec<RawSubstitution>>) -> Seq<(Option<Seq<char>>, Option<Seq<char>>)> {
    match o {
        Some(v) => raw_subs_view(v@),
        None => Seq::empty(),
    }
}

pub open spec fn default_fixture_dirs() -> Seq<Seq<char>> {
    seq![DEFAULT_COMPILE_FAIL_DIR@, DEFAULT_COMPILE_PASS_DIR@]
}

pub const EXTERN_EXPECTED: &'static str = "a non-empty array of crate names; the first must equal `dylib_crate`";
pub const EXTERN_WHY: &'static str = "every fixture compiles with one --extern <name>=<path> per entry";
pub const TIMEOUT_EXPECTED: &'static str = "a positive integer (seconds of wall-clock per fixture)";
pub const TIMEOUT_WHY: &'static str = "a zero timeout would kill every fixture immediately";
pub const MEMORY_EXPECTED: &'static str = "a positive integer (megabytes per fixture)";
pub const MEMORY_WHY: &'static str = "a zero ceiling would kill every fixture instantly";
pub const DYLIB_EXPECTED: &'static str = "a non-empty workspace-member crate name";
pub const DYLIB_WHY: &'static str = "lihaaf needs to know which crate to build as the dylib";

/// The checks shared by every suite, in order, after the suite-specific
/// ones; `Ok` carries the suite.
pub open spec fn finish_suite(
    label: Seq<char>,
    name: Seq<char>,
    ext: Seq<Seq<char>>,
    dirs: Seq<Seq<char>>,
    edition: Seq<char>,
    timeout: u32,
    memory: u32,
    timeout_msg: Seq<char>,
    memory_msg: Seq<char>,
    lints: Seq<Seq<char>>,
    features: Seq<Seq<char>>,
    raw_subs: Seq<(Option<Seq<char>>, Option<Seq<char>>)>,
    strip: Seq<Seq<char>>,
    prefixes: Seq<Seq<char>>,
    dev_deps: Seq<Seq<char>>,
    marker: Seq<char>,
) -> Result<SuiteView, Seq<char>> {
    match edition_error(label, edition) {
        Some(m) => Err(m),
        None => if timeout == 0 {
            Err(timeout_msg)
        } else if memory == 0 {
            Err(memory_msg)
        } else {
            match lints_error(label, lints) {
                Some(m) => Err(m),
                None => match features_error(label, features) {
                    Some(m) => Err(m),
                    None => match raw_subs_error(label, raw_subs) {
                        Some(m) => Err(m),
                        None => match subs_error(label, completed_subs(raw_subs)) {
                            Some(m) => Err(m),
                            None => match strips_error(label, "strip_lines"@, strip) {
                                Some(m) => Err(m),
                                None => match strips_error(label, "strip_line_prefixes"@, prefixes) {
                                    Some(m) => Err(m),
                                    None => Ok(
                                        SuiteView {
                                            name,
                                            extern_crates: ext,
                                            fixture_dirs: dirs,
                                            features,
                                            edition,
                                            dev_deps,
                                            compile_fail_marker: marker,
                                            fixture_timeout_secs: timeout,
                                            per_fixture_memory_mb: memory,
                                            allow_lints: lints,
                                            extra_substitutions: completed_subs(raw_subs),
                                            strip_lines: strip,
                                            strip_line_prefixes: prefixes,
                                        },
                                    ),
                                },
                            },
                        },
                    },
                },
            }
        },
    }
}

/// The default suite built from the top-level table, or the first problem.
pub open spec fn default_suite_spec(dylib: Seq<char>, raw: RawMetadata) -> Result<SuiteView, Seq<char>> {
    let ext = list_or(raw.extern_crates, Seq::empty());
    if ext.len() == 0 {
        Err(invalid_key_text("extern_crates"@, EXTERN_EXPECTED@, EXTERN_WHY@))
    } else if ext[0] != dylib {
        Err(extern_mismatch_text(ext[0], dylib))
    } else {
        finish_suite(
            DEFAULT_SUITE_NAME@,
            DEFAULT_SUITE_NAME@,
            ext,
            list_or(raw.fixture_dirs, default_fixture_dirs()),
            str_or(raw.edition, DEFAULT_EDITION@),
            u32_or(raw.fixture_timeout_secs, DEFAULT_FIXTURE_TIMEOUT_SECS),
            u32_or(raw.per_fixture_memory_mb, DEFAULT_PER_FIXTURE_MEMORY_MB),
            invalid_key_text("fixture_timeout_secs"@, TIMEOUT_EXPECTED@, TIMEOUT_WHY@),
            invalid_key_text("per_fixture_memory_mb"@, MEMORY_EXPECTED@, MEMORY_WHY@),
            list_or(raw.allow_lints, Seq::empty()),
            list_or(raw.features, Seq::empty()),
            raw_subs_or_empty(raw.extra_substitutions),
            list_or(raw.strip_lines, Seq::empty()),
            list_or(raw.strip_line_prefixes, Seq::empty()),
            list_or(raw.dev_deps, Seq::empty()),
            str_or(raw.compile_fail_marker, DEFAULT_COMPILE_FAIL_MARKER@),
        )
    }
}

/// Named suite `index`, inheriting from the default suite `d`, or the
/// first problem.
pub open spec fn named_suite_spec(dylib: Seq<char>, d: SuiteView, index: nat, raw: RawSuite) -> Result<SuiteView, Seq<char>> {
    let name = str_or(raw.name, Seq::empty());
    let ext = list_or(raw.extern_crates, d.extern_crates);
    if raw.dylib_crate is Some {
        Err(entry_text(index, ENTRY_SETS_DYLIB@))
    } else {
        match suite_name_error(index, name) {
            Some(m) => Err(m),
            None => if ext.len() == 0 {
                Err(suite_text(name, SUITE_EXTERN_EMPTY@))
            } else if ext[0] != dylib {
                Err(suite_extern_mismatch_text(name, ext[0], dylib))
            } else {
                match raw.fixture_dirs {
                    None => Err(suite_text(name, SUITE_DIRS_REQUIRED@)),
                    Some(dirs) => if dirs@.len() == 0 {
                        Err(suite_text(name, SUITE_DIRS_EMPTY@))
                    } else {
                        finish_suite(
                            name,
                            name,
                            ext,
                            dirs.deep_view(),
                            str_or(raw.edition, d.edition),
                            u32_or(raw.fixture_timeout_secs, d.fixture_timeout_secs),
                            u32_or(raw.per_fixture_memory_mb, d.per_fixture_memory_mb),
                            suite_text(name, SUITE_TIMEOUT_ZERO@),
                            suite_text(name, SUITE_MEMORY_ZERO@),
                            list_or(raw.allow_lints, d.allow_lints),
                            list_or(raw.features, Seq::empty()),
                            raw_subs_or_empty(raw.extra_substitutions),
                            list_or(raw.strip_lines, Seq::empty()),
                            list_or(raw.strip_line_prefixes, Seq::empty()),
                            list_or(raw.dev_deps, d.dev_deps),
                            str_or(raw.compile_fail_marker, d.compile_fail_marker),
                        )
                    },
                }
            },
        }
    }
}

/// Named suites built from `raws[..i]` in order, or the first problem.
pub open spec fn named_suites_spec(dylib: Seq<char>, d: SuiteView, raws: Seq<RawSuite>, i: int) -> Result<Seq<SuiteView>, Seq<char>>
    decreases i,
{
    if i <= 0 {
        Ok(Seq::empty())
    } else {
        match named_suites_spec(dylib, d, raws, i - 1) {
            Err(m) => Err(m),
            Ok(prev) => match named_suite_spec(dylib, d, (i - 1) as nat, raws[i - 1]) {
                Err(m) => Err(m),
                Ok(s) => Ok(prev.push(s)),
            },
        }
    }
}

fn clone_strings(v: &Vec<String>) -> (r: Vec<String>)
    ensures
        r.deep_view() == v.deep_view(),
{
    let mut r: Vec<String> = Vec::new();
    let mut i: usize = 0;
    while i < v.len()
        invariant
            i <= v@.len(),
            r@.len() == i,
            r.deep_view() == v.deep_view().subrange(0, i as int),
        decreases v@.len() - i,
    {
        let item = v[i].clone();
        let ghost gi = item;
        let ghost before = r@;
        let ghost old_dv = r.deep_view();
        r.push(item);
        proof {
            assert(r@ == before.push(gi));
            assert forall|k: int| 0 <= k < i implies #[trigger] r.deep_view()[k] == v.deep_view()[k] by {
                assert(r@[k] == before[k]);
                assert(old_dv[k] == before[k]@);
            }
            assert(r.deep_view() =~= v.deep_view().subrange(0, i + 1));
        }
        i = i + 1;
    }
    proof {
        assert(v.deep_view().subrange(0, i as int) =~= v.deep_view());
    }
    r
}

fn strings_or(o: &Option<Vec<String>>, d: &Vec<String>) -> (r: Vec<String>)
    ensures
        r.deep_view() == list_or(*o, d.deep_view()),
{
    match o {
        Some(v) => clone_strings(v),
        None => clone_strings(d),
    }
}

fn string_or(o: &Option<String>, d: &str) -> (r: String)
    ensures
        r@ == str_or(*o, d@),
{
    match o {
        Some(s) => s.clone(),
        None => d.to_owned(),
    }
}

fn raw_subs_clone(o: &Option<Vec<RawSubstitution>>) -> (r: Vec<RawSubstitution>)
    ensures
        raw_subs_view(r@) == raw_subs_or_empty(*o),
{
    let mut r: Vec<RawSubstitution> = Vec::new();
    match o {
        None => {
            proof {
                assert(raw_subs_view(r@) =~= raw_subs_or_empty(*o));
            }
        },
        Some(v) => {
            let mut i: usize = 0;
            while i < v.len()
                invariant
                    i <= v@.len(),
                    r@.len() == i,
                    raw_subs_view(r@) == raw_subs_view(v@).subrange(0, i as int),
                decreases v@.len() - i,
            {
                let e = &v[i];
                let from = match &e.from {
                    Some(f) => Some(f.clone()),
                    None => None,
                };
                let to = match &e.to {
                    Some(t) => Some(t.clone()),
                    None => None,
                };
                let item = RawSubstitution { from, to };
                let ghost gi = item;
                let ghost before = r@;
                let ghost old_rv = raw_subs_view(r@);
                r.push(item);
                proof {
                    assert(r@ == before.push(gi));
                    assert forall|k: int| 0 <= k < i implies #[trigger] raw_subs_view(r@)[k] == raw_subs_view(v@)[k] by {
                        assert(r@[k] == before[k]);
                        assert(old_rv[k] == (opt_view(before[k].from), opt_view(before[k].to)));
                    }
                    assert(raw_subs_view(r@) =~= raw_subs_view(v@).subrange(0, i + 1));
                }
                i = i + 1;
            }
            proof {
                assert(raw_subs_view(v@).subrange(0, i as int) =~= raw_subs_view(v@));
            }
        },
    }
    r
}

/// Runs the checks shared by every suite and assembles it.
fn finish_suite_exec(
    label: &str,
    name: String,
    extern_crates: Vec<String>,
    fixture_dirs: Vec<String>,
    edition: String,
    timeout: u32,
    memory: u32,
    timeout_msg: String,
    memory_msg: String,
    allow_lints: Vec<String>,
    features: Vec<String>,
    raw_subs: Vec<RawSubstitution>,
    strip_lines: Vec<String>,
    strip_line_prefixes: Vec<String>,
    dev_deps: Vec<String>,
    marker: String,
) -> (r: Result<Suite, Error>)
    ensures
        match finish_suite(
            label@,
            name@,
            extern_crates.deep_view(),
            fixture_dirs.deep_view(),
            edition@,
            timeout,
            memory,
            timeout_msg@,
            memory_msg@,
            allow_lints.deep_view(),
            features.deep_view(),
            raw_subs_view(raw_subs@),
            strip_lines.deep_view(),
            strip_line_prefixes.deep_view(),
            dev_deps.deep_view(),
            marker@,
        ) {
            Ok(v) => r matches Ok(s) && s@ == v,
            Err(m) => is_config_error(r, m),
        },
{
    match validate_edition(label, edition.as_str()) {
        Err(e) => return Err(e),
        Ok(()) => {},
    }
    if timeout == 0 {
        return Err(Error::Session(Outcome::ConfigInvalid { message: timeout_msg }));
    }
    if memory == 0 {
        return Err(Error::Session(Outcome::ConfigInvalid { message: memory_msg }));
    }
    match validate_allow_lints(label, &allow_lints) {
        Err(e) => return Err(e),
        Ok(()) => {},
    }
    match validate_features(label, &features) {
        Err(e) => return Err(e),
        Ok(()) => {},
    }
    let extra_substitutions = match finalize_substitutions(label, raw_subs) {
        Err(e) => return Err(e),
        Ok(v) => v,
    };
    match validate_extra_substitutions(label, &extra_substitutions) {
        Err(e) => return Err(e),
        Ok(()) => {},
    }
    match validate_strip_patterns(label, "strip_lines", &strip_lines) {
        Err(e) => return Err(e),
        Ok(()) => {},
    }
    match validate_strip_patterns(label, "strip_line_prefixes", &strip_line_prefixes) {
        Err(e) => return Err(e),
        Ok(()) => {},
    }
    Ok(
        Suite {
            name,
            extern_crates,
            fixture_dirs,
            features,
            edition,
            dev_deps,
            compile_fail_marker: marker,
            fixture_timeout_secs: timeout,
            per_fixture_memory_mb: memory,
            allow_lints,
            extra_substitutions,
            strip_lines,
            strip_line_prefixes,
        },
    )
}

} // verus!

verus! {

fn default_dirs_vec() -> (r: Vec<String>)
    ensures
        r.deep_view() == default_fixture_dirs(),
{
    let mut r: Vec<String> = Vec::new();
    r.push(DEFAULT_COMPILE_FAIL_DIR.to_owned());
    r.push(DEFAULT_COMPILE_PASS_DIR.to_owned());
    proof {
        assert(r.deep_view() =~= default_fixture_dirs());
    }
    r
}

fn u32_or_exec(o: Option<u32>, d: u32) -> (r: u32)
    ensures
        r == u32_or(o, d),
{
    match o {
        Some(n) => n,
        None => d,
    }
}

/// Builds the default suite from the top-level keys.
pub fn build_default_suite(dylib_crate: &str, raw: &RawMetadata) -> (r: Result<Suite, Error>)
    ensures
        match default_suite_spec(dylib_crate@, *raw) {
            Ok(v) => r matches Ok(s) && s@ == v,
            Err(m) => is_config_error(r, m),
        },
{
    let empty: Vec<String> = Vec::new();
    proof {
        assert(empty.deep_view() =~= Seq::<Seq<char>>::empty());
    }
    let extern_crates = strings_or(&raw.extern_crates, &empty);
    if extern_crates.len() == 0 {
        return Err(Error::Session(Outcome::ConfigInvalid { message: format_invalid_key("extern_crates", EXTERN_EXPECTED, EXTERN_WHY) }));
    }
    if !str_eq(extern_crates[0].as_str(), dylib_crate) {
        return Err(Error::Session(Outcome::ConfigInvalid { message: extern_mismatch_message(extern_crates[0].as_str(), dylib_crate) }));
    }
    let dirs_default = default_dirs_vec();
    let fixture_dirs = strings_or(&raw.fixture_dirs, &dirs_default);
    let edition = string_or(&raw.edition, DEFAULT_EDITION);
    let timeout = u32_or_exec(raw.fixture_timeout_secs, DEFAULT_FIXTURE_TIMEOUT_SECS);
    let memory = u32_or_exec(raw.per_fixture_memory_mb, DEFAULT_PER_FIXTURE_MEMORY_MB);
    let timeout_msg = format_invalid_key("fixture_timeout_secs", TIMEOUT_EXPECTED, TIMEOUT_WHY);
    let memory_msg = format_invalid_key("per_fixture_memory_mb", MEMORY_EXPECTED, MEMORY_WHY);
    let allow_lints = strings_or(&raw.allow_lints, &empty);
    let features = strings_or(&raw.features, &empty);
    let raw_subs = raw_subs_clone(&raw.extra_substitutions);
    let strip_lines = strings_or(&raw.strip_lines, &empty);
    let strip_line_prefixes = strings_or(&raw.strip_line_prefixes, &empty);
    let dev_deps = strings_or(&raw.dev_deps, &empty);
    let marker = string_or(&raw.compile_fail_marker, DEFAULT_COMPILE_FAIL_MARKER);
    finish_suite_exec(
        DEFAULT_SUITE_NAME,
        DEFAULT_SUITE_NAME.to_owned(),
        extern_crates,
        fixture_dirs,
        edition,
        timeout,
        memory,
        timeout_msg,
        memory_msg,
        allow_lints,
        features,
        raw_subs,
        strip_lines,
        strip_line_prefixes,
        dev_deps,
        marker,
    )
}

/// Builds named suite `index`, inheriting from `default_suite`.
pub fn finalize_named_suite(dylib_crate: &str, default_suite: &Suite, index: usize, raw: &RawSuite) -> (r: Result<Suite, Error>)
    ensures
        match named_suite_spec(dylib_crate@, default_suite@, index as nat, *raw) {
            Ok(v) => r matches Ok(s) && s@ == v,
            Err(m) => is_config_error(r, m),
        },
{
    if raw.dylib_crate.is_some() {
        return Err(Error::Session(Outcome::ConfigInvalid { message: entry_message(index, ENTRY_SETS_DYLIB) }));
    }
    let name = match &raw.name {
        Some(n) => n.clone(),
        None => String::new(),
    };
    match validate_named_suite_name(index, name.as_str()) {
        Err(e) => return Err(e),
        Ok(()) => {},
    }
    let extern_crates = strings_or(&raw.extern_crates, &default_suite.extern_crates);
    if extern_crates.len() == 0 {
        return Err(Error::Session(Outcome::ConfigInvalid { message: suite_message(name.as_str(), SUITE_EXTERN_EMPTY) }));
    }
    if !str_eq(extern_crates[0].as_str(), dylib_crate) {
        return Err(Error::Session(Outcome::ConfigInvalid { message: suite_extern_mismatch_message(name.as_str(), extern_crates[0].as_str(), dylib_crate) }));
    }
    let fixture_dirs = match &raw.fixture_dirs {
        None => {
            return Err(Error::Session(Outcome::ConfigInvalid { message: suite_message(name.as_str(), SUITE_DIRS_REQUIRED) }));
        },
        Some(dirs) => {
            if dirs.len() == 0 {
                return Err(Error::Session(Outcome::ConfigInvalid { message: suite_message(name.as_str(), SUITE_DIRS_EMPTY) }));
            }
            clone_strings(dirs)
        },
    };
    let empty: Vec<String> = Vec::new();
    proof {
        assert(empty.deep_view() =~= Seq::<Seq<char>>::empty());
    }
    let edition = string_or(&raw.edition, default_suite.edition.as_str());
    let timeout = u32_or_exec(raw.fixture_timeout_secs, default_suite.fixture_timeout_secs);
    let memory = u32_or_exec(raw.per_fixture_memory_mb, default_suite.per_fixture_memory_mb);
    let timeout_msg = suite_message(name.as_str(), SUITE_TIMEOUT_ZERO);
    let memory_msg = suite_message(name.as_str(), SUITE_MEMORY_ZERO);
    let allow_lints = strings_or(&raw.allow_lints, &default_suite.allow_lints);
    let features = strings_or(&raw.features, &empty);
    let raw_subs = raw_subs_clone(&raw.extra_substitutions);
    let strip_lines = strings_or(&raw.strip_lines, &empty);
    let strip_line_prefixes = strings_or(&raw.strip_line_prefixes, &empty);
    let dev_deps = strings_or(&raw.dev_deps, &default_suite.dev_deps);
    let marker = string_or(&raw.compile_fail_marker, default_suite.compile_fail_marker.as_str());
    let label = name.clone();
    finish_suite_exec(
        label.as_str(),
        name,
        extern_crates,
        fixture_dirs,
        edition,
        timeout,
        memory,
        timeout_msg,
        memory_msg,
        allow_lints,
        features,
        raw_subs,
        strip_lines,
        strip_line_prefixes,
        dev_deps,
        marker,
    )
}

} // verus!

verus! {

pub open spec fn suites_view(v: Seq<Suite>) -> Seq<SuiteView> {
    Seq::new(v.len(), |i: int| v[i]@)
}

/// The first suite whose name an earlier suite already took, from `j` on.
pub open spec fn duplicate_from(v: Seq<SuiteView>, j: int) -> Option<Seq<char>>
    decreases v.len() - j,
{
    if j < 0 || j >= v.len() {
        None
    } else if exists|i: int| 0 <= i < j && #[trigger] v[i].name == v[j].name {
        Some(duplicate_name_text(v[j].name))
    } else {
        duplicate_from(v, j + 1)
    }
}

pub fn validate_unique_suite_names(suites: &Vec<Suite>) -> (r: Result<(), Error>)
    ensures
        check_result(r, duplicate_from(suites_view(suites@), 0)),
{
    let ghost sv = suites_view(suites@);
    let mut j: usize = 0;
    while j < suites.len()
        invariant
            sv == suites_view(suites@),
            j <= suites@.len(),
            duplicate_from(sv, 0) == duplicate_from(sv, j as int),
        decreases suites@.len() - j,
    {
        let mut i: usize = 0;
        while i < j
            invariant
                sv == suites_view(suites@),
                i <= j < suites@.len(),
                duplicate_from(sv, 0) == duplicate_from(sv, j as int),
                forall|k: int| 0 <= k < i ==> sv[k].name != sv[j as int].name,
            decreases j - i,
        {
            if str_eq(suites[i].name.as_str(), suites[j].name.as_str()) {
                assert(sv[i as int].name == sv[j as int].name);
                return config_err(duplicate_name_message(suites[j].name.as_str()));
            }
            i = i + 1;
        }
        j = j + 1;
    }
    Ok(())
}

/// Index of the first seen directory whose key equals that of `dir`.
pub open spec fn first_key_match(root: Seq<PathComp>, seen: Seq<(Seq<char>, Seq<char>)>, dir: Seq<char>, q: int) -> Option<int>
    decreases seen.len() - q,
{
    if q < 0 || q >= seen.len() {
        None
    } else if dir_key(root, seen[q].1) == dir_key(root, dir) {
        Some(q)
    } else {
        first_key_match(root, seen, dir, q + 1)
    }
}

/// Walks the first `d` directories of suite `name`, recording
/// (suite, directory) pairs after `seen0`; fails on the first directory
/// that resolves to a recorded one.
pub open spec fn scan_dirs(root: Seq<PathComp>, name: Seq<char>, dirs: Seq<Seq<char>>, seen0: Seq<(Seq<char>, Seq<char>)>, d: int) -> Result<Seq<(Seq<char>, Seq<char>)>, Seq<char>>
    decreases d,
{
    if d <= 0 {
        Ok(seen0)
    } else {
        match scan_dirs(root, name, dirs, seen0, d - 1) {
            Err(m) => Err(m),
            Ok(seen) => match first_key_match(root, seen, dirs[d - 1], 0) {
                Some(q) => Err(shared_dir_text(dirs[d - 1], name, seen[q].1, seen[q].0)),
                None => Ok(seen.push((name, dirs[d - 1]))),
            },
        }
    }
}

/// The same walk over the first `s` suites.
pub open spec fn scan_suites(root: Seq<PathComp>, v: Seq<SuiteView>, s: int) -> Result<Seq<(Seq<char>, Seq<char>)>, Seq<char>>
    decreases s,
{
    if s <= 0 {
        Ok(Seq::empty())
    } else {
        match scan_suites(root, v, s - 1) {
            Err(m) => Err(m),
            Ok(seen) => scan_dirs(root, v[s - 1].name, v[s - 1].fixture_dirs, seen, v[s - 1].fixture_dirs.len() as int),
        }
    }
}

/// The first fixture directory that resolves (lexically, against the
/// manifest's directory) to one an earlier entry already declared.
pub open spec fn disjoint_error(manifest: Seq<char>, v: Seq<SuiteView>) -> Option<Seq<char>> {
    match scan_suites(manifest_root(manifest), v, v.len() as int) {
        Err(m) => Some(m),
        Ok(_) => None,
    }
}

pub fn validate_disjoint_fixture_dirs(manifest_path: &str, suites: &Vec<Suite>) -> (r: Result<(), Error>)
    ensures
        check_result(r, disjoint_error(manifest_path@, suites_view(suites@))),
{
    let ghost sv = suites_view(suites@);
    let root = derive_manifest_root(manifest_path);
    let ghost groot = comps_view(root@);
    let mut seen_names: Vec<String> = Vec::new();
    let mut seen_dirs: Vec<String> = Vec::new();
    let mut seen_keys: Vec<Vec<Comp>> = Vec::new();
    let ghost mut seen: Seq<(Seq<char>, Seq<char>)> = Seq::empty();
    let mut s: usize = 0;
    while s < suites.len()
        invariant
            sv == suites_view(suites@),
            groot == comps_view(root@),
            groot == manifest_root(manifest_path@),
            s <= suites@.len(),
            scan_suites(groot, sv, s as int) == Ok::<Seq<(Seq<char>, Seq<char>)>, Seq<char>>(seen),
            seen_names@.len() == seen.len(),
            seen_dirs@.len() == seen.len(),
            seen_keys@.len() == seen.len(),
            forall|k: int| 0 <= k < seen.len() ==> (#[trigger] seen_names@[k])@ == seen[k].0,
            forall|k: int| 0 <= k < seen.len() ==> (#[trigger] seen_dirs@[k])@ == seen[k].1,
            forall|k: int| 0 <= k < seen.len() ==> comps_view((#[trigger] seen_keys@[k])@) == dir_key(groot, seen[k].1),
        decreases suites@.len() - s,
    {
        let suite = &suites[s];
        assert(sv[s as int] == suite@);
        let ghost seen0 = seen;
        let mut d: usize = 0;
        while d < suite.fixture_dirs.len()
            invariant
                sv == suites_view(suites@),
                groot == comps_view(root@),
                groot == manifest_root(manifest_path@),
                s < suites@.len(),
                suite == &suites@[s as int],
                scan_suites(groot, sv, s as int) == Ok::<Seq<(Seq<char>, Seq<char>)>, Seq<char>>(seen0),
                d <= suite.fixture_dirs@.len(),
                scan_dirs(groot, suite.name@, suite.fixture_dirs.deep_view(), seen0, d as int) == Ok::<Seq<(Seq<char>, Seq<char>)>, Seq<char>>(seen),
                seen_names@.len() == seen.len(),
                seen_dirs@.len() == seen.len(),
                seen_keys@.len() == seen.len(),
                forall|k: int| 0 <= k < seen.len() ==> (#[trigger] seen_names@[k])@ == seen[k].0,
                forall|k: int| 0 <= k < seen.len() ==> (#[trigger] seen_dirs@[k])@ == seen[k].1,
                forall|k: int| 0 <= k < seen.len() ==> comps_view((#[trigger] seen_keys@[k])@) == dir_key(groot, seen[k].1),
            decreases suite.fixture_dirs@.len() - d,
        {
            let dir = suite.fixture_dirs[d].as_str();
            assert(suite.fixture_dirs.deep_view()[d as int] == dir@);
            let key = fixture_dir_key(&root, dir);
            let mut q: usize = 0;
            while q < seen_keys.len()
                invariant
                    groot == comps_view(root@),
                    groot == manifest_root(manifest_path@),
                    comps_view(key@) == dir_key(groot, dir@),
                    q <= seen.len(),
                    seen_names@.len() == seen.len(),
                    seen_dirs@.len() == seen.len(),
                    seen_keys@.len() == seen.len(),
                    forall|k: int| 0 <= k < seen.len() ==> (#[trigger] seen_names@[k])@ == seen[k].0,
                    forall|k: int| 0 <= k < seen.len() ==> (#[trigger] seen_dirs@[k])@ == seen[k].1,
                    forall|k: int| 0 <= k < seen.len() ==> comps_view((#[trigger] seen_keys@[k])@) == dir_key(groot, seen[k].1),
                    first_key_match(groot, seen, dir@, 0) == first_key_match(groot, seen, dir@, q as int),
                    scan_suites(groot, sv, s as int) == Ok::<Seq<(Seq<char>, Seq<char>)>, Seq<char>>(seen0),
                    scan_dirs(groot, suite.name@, suite.fixture_dirs.deep_view(), seen0, d as int) == Ok::<Seq<(Seq<char>, Seq<char>)>, Seq<char>>(seen),
                    d < suite.fixture_dirs@.len(),
                    suite.fixture_dirs.deep_view()[d as int] == dir@,
                    sv == suites_view(suites@),
                    s < suites@.len(),
                    suite == &suites@[s as int],
                decreases seen.len() - q,
            {
                if comps_eq(&seen_keys[q], &key) {
                    let m = shared_dir_message(dir, suite.name.as_str(), seen_dirs[q].as_str(), seen_names[q].as_str());
                    proof {
                        assert(scan_dirs(groot, suite.name@, suite.fixture_dirs.deep_view(), seen0, d + 1) == Err::<Seq<(Seq<char>, Seq<char>)>, Seq<char>>(m@));
                        lemma_scan_dirs_err(groot, suite.name@, suite.fixture_dirs.deep_view(), seen0, d + 1, m@);
                        lemma_scan_suites_err(groot, sv, s + 1, m@);
                    }
                    return config_err(m);
                }
                q = q + 1;
            }
            let ghost before = seen;
            let ghost names_before = seen_names@;
            let ghost dirs_before = seen_dirs@;
            let ghost keys_before = seen_keys@;
            seen_names.push(suite.name.clone());
            seen_dirs.push(suite.fixture_dirs[d].clone());
            seen_keys.push(key);
            proof {
                seen = before.push((suite.name@, dir@));
                assert(scan_dirs(groot, suite.name@, suite.fixture_dirs.deep_view(), seen0, d + 1) == Ok::<Seq<(Seq<char>, Seq<char>)>, Seq<char>>(seen));
                assert forall|k: int| 0 <= k < seen.len() implies (#[trigger] seen_names@[k])@ == seen[k].0 by {
                    if k < before.len() {
                        assert(seen_names@[k] == names_before[k]);
                    }
                }
                assert forall|k: int| 0 <= k < seen.len() implies (#[trigger] seen_dirs@[k])@ == seen[k].1 by {
                    if k < before.len() {
                        assert(seen_dirs@[k] == dirs_before[k]);
                    }
                }
                assert forall|k: int| 0 <= k < seen.len() implies comps_view((#[trigger] seen_keys@[k])@) == dir_key(groot, seen[k].1) by {
                    if k < before.len() {
                        assert(seen_keys@[k] == keys_before[k]);
                    }
                }
            }
            d = d + 1;
        }
        s = s + 1;
        proof {
            assert(suite.fixture_dirs.deep_view().len() == suite.fixture_dirs@.len());
        }
    }
    Ok(())
}

proof fn lemma_scan_dirs_err(root: Seq<PathComp>, name: Seq<char>, dirs: Seq<Seq<char>>, seen0: Seq<(Seq<char>, Seq<char>)>, d: int, m: Seq<char>)
    requires
        scan_dirs(root, name, dirs, seen0, d) == Err::<Seq<(Seq<char>, Seq<char>)>, Seq<char>>(m),
        d <= dirs.len(),
    ensures
        scan_dirs(root, name, dirs, seen0, dirs.len() as int) == Err::<Seq<(Seq<char>, Seq<char>)>, Seq<char>>(m),
    decreases dirs.len() - d,
{
    if d < dirs.len() {
        lemma_scan_dirs_err(root, name, dirs, seen0, d + 1, m);
    }
}

proof fn lemma_scan_suites_err(root: Seq<PathComp>, v: Seq<SuiteView>, s: int, m: Seq<char>)
    requires
        scan_suites(root, v, s) == Err::<Seq<(Seq<char>, Seq<char>)>, Seq<char>>(m),
        s <= v.len(),
    ensures
        scan_suites(root, v, v.len() as int) == Err::<Seq<(Seq<char>, Seq<char>)>, Seq<char>>(m),
    decreases v.len() - s,
{
    if s < v.len() {
        lemma_scan_suites_err(root, v, s + 1, m);
    }
}

} // verus!

verus! {

/// Parsed and validated `[package.metadata.lihaaf]`: the dylib crate, the
/// raw table (kept verbatim for the manifest snapshot) and every suite,
/// the default suite first and named suites in declaration order.
#[derive(Debug)]
pub struct Config {
    pub dylib_crate: String,
    pub raw_metadata: toml::Value,
    pub suites: Vec<Suite>,
}

/// The dylib crate and suites a raw table yields, or the first problem:
/// the dylib crate, the default suite, each named suite, unique names,
/// then disjoint fixture directories.
pub open spec fn config_spec(raw: RawMetadata, manifest: Seq<char>) -> Result<(Seq<char>, Seq<SuiteView>), Seq<char>> {
    let dylib = str_or(raw.dylib_crate, Seq::empty());
    if dylib.len() == 0 {
        Err(invalid_key_text("dylib_crate"@, DYLIB_EXPECTED@, DYLIB_WHY@))
    } else {
        match dylib_error(dylib) {
            Some(m) => Err(m),
            None => match default_suite_spec(dylib, raw) {
                Err(m) => Err(m),
                Ok(d) => match named_suites_spec(dylib, d, raw.suite@, raw.suite@.len() as int) {
                    Err(m) => Err(m),
                    Ok(named) => {
                        let all = seq![d] + named;
                        match duplicate_from(all, 0) {
                            Some(m) => Err(m),
                            None => match disjoint_error(manifest, all) {
                                Some(m) => Err(m),
                                None => Ok((dylib, all)),
                            },
                        }
                    },
                },
            },
        }
    }
}

/// Only the first suite is the default one.
pub open spec fn default_first(suites: Seq<SuiteView>) -> bool {
    forall|i: int| 0 <= i < suites.len() ==> ((#[trigger] suites[i]).name == DEFAULT_SUITE_NAME@ <==> i == 0)
}

proof fn lemma_named_suites_not_default(dylib: Seq<char>, d: SuiteView, raws: Seq<RawSuite>, i: int)
    ensures
        named_suites_spec(dylib, d, raws, i) matches Ok(v) ==> forall|j: int|
            0 <= j < v.len() ==> (#[trigger] v[j]).name != DEFAULT_SUITE_NAME@,
    decreases i,
{
    if i > 0 {
        lemma_named_suites_not_default(dylib, d, raws, i - 1);
        if let Ok(v) = named_suites_spec(dylib, d, raws, i) {
            let prev = named_suites_spec(dylib, d, raws, i - 1)->Ok_0;
            let last = named_suite_spec(dylib, d, (i - 1) as nat, raws[i - 1])->Ok_0;
            assert(v == prev.push(last));
            assert(last.name != DEFAULT_SUITE_NAME@);
            assert forall|j: int| 0 <= j < v.len() implies (#[trigger] v[j]).name != DEFAULT_SUITE_NAME@ by {
                if j < prev.len() {
                    assert(v[j] == prev[j]);
                }
            }
        }
    }
}

/// A validated configuration has the default suite first and nowhere else:
/// a suite is the default one exactly when it is the first.
pub proof fn lemma_only_first_suite_is_default(raw: RawMetadata, manifest: Seq<char>)
    ensures
        config_spec(raw, manifest) matches Ok((d, suites)) ==> suites.len() >= 1 && default_first(suites),
{
    if let Ok((dy, suites)) = config_spec(raw, manifest) {
        let d = default_suite_spec(dy, raw)->Ok_0;
        let named = named_suites_spec(dy, d, raw.suite@, raw.suite@.len() as int)->Ok_0;
        lemma_named_suites_not_default(dy, d, raw.suite@, raw.suite@.len() as int);
        assert(suites == seq![d] + named);
        assert(d.name == DEFAULT_SUITE_NAME@);
        assert forall|i: int| 0 <= i < suites.len() implies ((#[trigger] suites[i]).name == DEFAULT_SUITE_NAME@ <==> i == 0) by {
            if i > 0 {
                assert(suites[i] == named[i - 1]);
            }
        }
    }
}

proof fn lemma_named_err(dylib: Seq<char>, d: SuiteView, raws: Seq<RawSuite>, i: int, m: Seq<char>)
    requires
        named_suites_spec(dylib, d, raws, i) == Err::<Seq<SuiteView>, Seq<char>>(m),
        0 <= i <= raws.len(),
    ensures
        named_suites_spec(dylib, d, raws, raws.len() as int) == Err::<Seq<SuiteView>, Seq<char>>(m),
    decreases raws.len() - i,
{
    if i < raws.len() {
        lemma_named_err(dylib, d, raws, i + 1, m);
    }
}

/// Validates a raw `[package.metadata.lihaaf]` table and resolves every
/// suite (see [`config_spec`]); `raw_metadata` is kept verbatim.
pub fn config_from_raw(raw: RawMetadata, raw_metadata: toml::Value, manifest_path: &str) -> (r: Result<Config, Error>)
    ensures
        match config_spec(raw, manifest_path@) {
            Ok((d, suites)) => r matches Ok(c) && c.dylib_crate@ == d && suites_view(c.suites@) == suites
                && c.raw_metadata == raw_metadata,
            Err(m) => is_config_error(r, m),
        },
        r matches Ok(c) ==> default_first(suites_view(c.suites@)),
{
    proof {
        lemma_only_first_suite_is_default(raw, manifest_path@);
    }
    let dylib_crate = match &raw.dylib_crate {
        Some(d) => d.clone(),
        None => String::new(),
    };
    if dylib_crate.as_str().is_empty() {
        return Err(Error::Session(Outcome::ConfigInvalid { message: format_invalid_key("dylib_crate", DYLIB_EXPECTED, DYLIB_WHY) }));
    }
    match validate_dylib_crate(dylib_crate.as_str()) {
        Err(e) => return Err(e),
        Ok(()) => {},
    }
    let default_suite = match build_default_suite(dylib_crate.as_str(), &raw) {
        Err(e) => return Err(e),
        Ok(s) => s,
    };
    let ghost d = default_suite@;
    let mut suites: Vec<Suite> = Vec::new();
    suites.push(default_suite);
    proof {
        assert(suites_view(suites@) =~= seq![d] + Seq::<SuiteView>::empty());
    }
    let mut idx: usize = 0;
    while idx < raw.suite.len()
        invariant
            idx <= raw.suite@.len(),
            suites@.len() == idx + 1,
            suites@[0]@ == d,
            dylib_crate@ == str_or(raw.dylib_crate, Seq::empty()),
            dylib_crate@.len() != 0,
            dylib_error(dylib_crate@) is None,
            default_suite_spec(dylib_crate@, raw) == Ok::<SuiteView, Seq<char>>(d),
            named_suites_spec(dylib_crate@, d, raw.suite@, idx as int) matches Ok(prev) && suites_view(suites@) == seq![d] + prev,
        decreases raw.suite@.len() - idx,
    {
        let ghost prev = named_suites_spec(dylib_crate@, d, raw.suite@, idx as int)->Ok_0;
        let suite = match finalize_named_suite(dylib_crate.as_str(), &suites[0], idx, &raw.suite[idx]) {
            Err(e) => {
                proof {
                    lemma_named_err(dylib_crate@, d, raw.suite@, idx + 1, named_suite_spec(dylib_crate@, d, idx as nat, raw.suite@[idx as int])->Err_0);
                }
                return Err(e);
            },
            Ok(s) => s,
        };
        let ghost gs = suite;
        let ghost before = suites@;
        let ghost old_v = suites_view(suites@);
        suites.push(suite);
        proof {
            assert(suites@ == before.push(gs));
            assert forall|k: int| 0 <= k < before.len() implies #[trigger] suites_view(suites@)[k] == old_v[k] by {
                assert(suites@[k] == before[k]);
            }
            assert(old_v == seq![d] + prev);
            assert(suites_view(suites@)[before.len() as int] == gs@);
            assert(suites_view(suites@) =~= old_v.push(gs@));
            assert(seq![d] + prev.push(gs@) =~= (seq![d] + prev).push(gs@));
        }
        idx = idx + 1;
    }
    match validate_unique_suite_names(&suites) {
        Err(e) => return Err(e),
        Ok(()) => {},
    }
    match validate_disjoint_fixture_dirs(manifest_path, &suites) {
        Err(e) => return Err(e),
        Ok(()) => {},
    }
    Ok(Config { dylib_crate, raw_metadata, suites })
}

} // verus!

verus! {

pub open spec fn entry_tree(t: Map<Seq<TomlSeg>, TomlNode>, key: Seq<char>) -> Map<Seq<TomlSeg>, TomlNode> {
    subtree(t, TomlSeg::Key(key))
}

/// A string key reads as a string (or is absent).
pub open spec fn str_field_ok(t: Map<Seq<TomlSeg>, TomlNode>, key: Seq<char>) -> bool {
    !has_key(t, key) || node_text(tree_root(entry_tree(t, key))) is Some
}

pub open spec fn str_field(t: Map<Seq<TomlSeg>, TomlNode>, key: Seq<char>) -> Option<Seq<char>> {
    if has_key(t, key) {
        node_text(tree_root(entry_tree(t, key)))
    } else {
        None
    }
}

pub open spec fn list_field_ok(t: Map<Seq<TomlSeg>, TomlNode>, key: Seq<char>) -> bool {
    !has_key(t, key) || string_list(entry_tree(t, key)) is Some
}

pub open spec fn list_field(t: Map<Seq<TomlSeg>, TomlNode>, key: Seq<char>) -> Option<Seq<Seq<char>>> {
    if has_key(t, key) {
        string_list(entry_tree(t, key))
    } else {
        None
    }
}

pub open spec fn u32_node(n: Option<TomlNode>) -> Option<u32> {
    match n {
        Some(TomlNode::Int(i)) => if 0 <= i <= u32::MAX {
            Some(i as u32)
        } else {
            None
        },
        _ => None,
    }
}

pub open spec fn u32_field_ok(t: Map<Seq<TomlSeg>, TomlNode>, key: Seq<char>) -> bool {
    !has_key(t, key) || u32_node(tree_root(entry_tree(t, key))) is Some
}

pub open spec fn u32_field(t: Map<Seq<TomlSeg>, TomlNode>, key: Seq<char>) -> Option<u32> {
    if has_key(t, key) {
        u32_node(tree_root(entry_tree(t, key)))
    } else {
        None
    }
}

pub open spec fn opt_list_view(o: Option<Vec<String>>) -> Option<Seq<Seq<char>>> {
    match o {
        Some(v) => Some(v.deep_view()),
        None => None,
    }
}

pub open spec fn elem_tree(t: Map<Seq<TomlSeg>, TomlNode>, i: int) -> Map<Seq<TomlSeg>, TomlNode> {
    subtree(t, TomlSeg::Index(i as nat))
}

/// A key holding an array of substitution tables (or absent).
pub open spec fn subs_field_ok(t: Map<Seq<TomlSeg>, TomlNode>, key: Seq<char>) -> bool {
    !has_key(t, key) || (tree_root(entry_tree(t, key)) matches Some(TomlNode::Array(n)) && forall|i: int|
        0 <= i < n ==> #[trigger] sub_entry_ok(elem_tree(entry_tree(t, key), i)))
}

/// A key holding an array of suite tables (or absent).
pub open spec fn suites_field_ok(t: Map<Seq<TomlSeg>, TomlNode>, key: Seq<char>) -> bool {
    !has_key(t, key) || (tree_root(entry_tree(t, key)) matches Some(TomlNode::Array(n)) && forall|i: int|
        0 <= i < n ==> #[trigger] suite_entry_ok(elem_tree(entry_tree(t, key), i)))
}

pub open spec fn sub_entry_ok(e: Map<Seq<TomlSeg>, TomlNode>) -> bool {
    tree_root(e) == Some(TomlNode::Table) && str_field_ok(e, "from"@) && str_field_ok(e, "to"@)
}

pub open spec fn sub_entry_matches(e: Map<Seq<TomlSeg>, TomlNode>, r: RawSubstitution) -> bool {
    opt_view(r.from) == str_field(e, "from"@) && opt_view(r.to) == str_field(e, "to"@)
}

pub open spec fn subs_field_matches(t: Map<Seq<TomlSeg>, TomlNode>, key: Seq<char>, o: Option<Vec<RawSubstitution>>) -> bool {
    if has_key(t, key) {
        o matches Some(v) && tree_root(entry_tree(t, key)) == Some(TomlNode::Array(v@.len())) && forall|i: int|
            0 <= i < v@.len() ==> sub_entry_matches(elem_tree(entry_tree(t, key), i), #[trigger] v@[i])
    } else {
        o is None
    }
}

/// Keys shared by the top-level table and suite entries read as typed.
pub open spec fn common_fields_ok(t: Map<Seq<TomlSeg>, TomlNode>) -> bool {
    &&& list_field_ok(t, "extern_crates"@)
    &&& list_field_ok(t, "fixture_dirs"@)
    &&& list_field_ok(t, "features"@)
    &&& str_field_ok(t, "edition"@)
    &&& list_field_ok(t, "dev_deps"@)
    &&& str_field_ok(t, "compile_fail_marker"@)
    &&& u32_field_ok(t, "fixture_timeout_secs"@)
    &&& u32_field_ok(t, "per_fixture_memory_mb"@)
    &&& list_field_ok(t, "allow_lints"@)
    &&& subs_field_ok(t, "extra_substitutions"@)
    &&& list_field_ok(t, "strip_lines"@)
    &&& list_field_ok(t, "strip_line_prefixes"@)
    &&& str_field_ok(t, "dylib_crate"@)
}

pub open spec fn suite_entry_ok(e: Map<Seq<TomlSeg>, TomlNode>) -> bool {
    tree_root(e) == Some(TomlNode::Table) && common_fields_ok(e) && str_field_ok(e, "name"@)
}

pub open spec fn suite_entry_matches(e: Map<Seq<TomlSeg>, TomlNode>, r: RawSuite) -> bool {
    &&& opt_view(r.name) == str_field(e, "name"@)
    &&& opt_list_view(r.extern_crates) == list_field(e, "extern_crates"@)
    &&& opt_list_view(r.fixture_dirs) == list_field(e, "fixture_dirs"@)
    &&& opt_list_view(r.features) == list_field(e, "features"@)
    &&& opt_view(r.edition) == str_field(e, "edition"@)
    &&& opt_list_view(r.dev_deps) == list_field(e, "dev_deps"@)
    &&& opt_view(r.compile_fail_marker) == str_field(e, "compile_fail_marker"@)
    &&& r.fixture_timeout_secs == u32_field(e, "fixture_timeout_secs"@)
    &&& r.per_fixture_memory_mb == u32_field(e, "per_fixture_memory_mb"@)
    &&& opt_list_view(r.allow_lints) == list_field(e, "allow_lints"@)
    &&& subs_field_matches(e, "extra_substitutions"@, r.extra_substitutions)
    &&& opt_list_view(r.strip_lines) == list_field(e, "strip_lines"@)
    &&& opt_list_view(r.strip_line_prefixes) == list_field(e, "strip_line_prefixes"@)
    &&& opt_view(r.dylib_crate) == str_field(e, "dylib_crate"@)
}

/// The `[package.metadata.lihaaf]` table reads into typed fields: a table
/// whose known keys hold values of their types (unknown keys are ignored).
pub open spec fn metadata_ok(t: Map<Seq<TomlSeg>, TomlNode>) -> bool {
    &&& tree_root(t) == Some(TomlNode::Table)
    &&& common_fields_ok(t)
    &&& suites_field_ok(t, "suite"@)
}

/// `raw` holds what table `t` says.
pub open spec fn metadata_matches(t: Map<Seq<TomlSeg>, TomlNode>, raw: RawMetadata) -> bool {
    &&& opt_view(raw.dylib_crate) == str_field(t, "dylib_crate"@)
    &&& opt_list_view(raw.extern_crates) == list_field(t, "extern_crates"@)
    &&& opt_list_view(raw.fixture_dirs) == list_field(t, "fixture_dirs"@)
    &&& opt_list_view(raw.features) == list_field(t, "features"@)
    &&& opt_view(raw.edition) == str_field(t, "edition"@)
    &&& opt_list_view(raw.dev_deps) == list_field(t, "dev_deps"@)
    &&& opt_view(raw.compile_fail_marker) == str_field(t, "compile_fail_marker"@)
    &&& raw.fixture_timeout_secs == u32_field(t, "fixture_timeout_secs"@)
    &&& raw.per_fixture_memory_mb == u32_field(t, "per_fixture_memory_mb"@)
    &&& opt_list_view(raw.allow_lints) == list_field(t, "allow_lints"@)
    &&& subs_field_matches(t, "extra_substitutions"@, raw.extra_substitutions)
    &&& opt_list_view(raw.strip_lines) == list_field(t, "strip_lines"@)
    &&& opt_list_view(raw.strip_line_prefixes) == list_field(t, "strip_line_prefixes"@)
    &&& if has_key(t, "suite"@) {
        tree_root(entry_tree(t, "suite"@)) == Some(TomlNode::Array(raw.suite@.len())) && forall|i: int|
            0 <= i < raw.suite@.len() ==> suite_entry_matches(elem_tree(entry_tree(t, "suite"@), i), #[trigger] raw.suite@[i])
    } else {
        raw.suite@.len() == 0
    }
}

fn read_str(v: &toml::Value, key: &str) -> (r: Result<Option<String>, String>)
    ensures
        r is Ok <==> str_field_ok(toml_tree(*v), key@),
        r matches Ok(o) ==> opt_view(o) == str_field(toml_tree(*v), key@),
{
    match toml_get(v, key) {
        None => Ok(None),
        Some(x) => match toml_to_string(&x) {
            Ok(s) => Ok(Some(s)),
            Err(e) => Err(e),
        },
    }
}

fn read_list(v: &toml::Value, key: &str) -> (r: Result<Option<Vec<String>>, String>)
    ensures
        r is Ok <==> list_field_ok(toml_tree(*v), key@),
        r matches Ok(o) ==> opt_list_view(o) == list_field(toml_tree(*v), key@),
{
    match toml_get(v, key) {
        None => Ok(None),
        Some(x) => match toml_to_string_list(&x) {
            Ok(l) => Ok(Some(l)),
            Err(e) => Err(e),
        },
    }
}

fn read_u32(v: &toml::Value, key: &str) -> (r: Result<Option<u32>, String>)
    ensures
        r is Ok <==> u32_field_ok(toml_tree(*v), key@),
        r matches Ok(o) ==> o == u32_field(toml_tree(*v), key@),
{
    match toml_get(v, key) {
        None => Ok(None),
        Some(x) => match toml_to_u32(&x) {
            Ok(n) => Ok(Some(n)),
            Err(e) => Err(e),
        },
    }
}

fn read_substitution(e: &toml::Value) -> (r: Result<RawSubstitution, String>)
    ensures
        r is Ok <==> sub_entry_ok(toml_tree(*e)),
        r matches Ok(s) ==> sub_entry_matches(toml_tree(*e), s),
{
    if !toml_is_table(e) {
        return Err(toml_table_error(e));
    }
    let from = match read_str(e, "from") {
        Err(m) => return Err(m),
        Ok(o) => o,
    };
    let to = match read_str(e, "to") {
        Err(m) => return Err(m),
        Ok(o) => o,
    };
    Ok(RawSubstitution { from, to })
}

fn read_substitutions(v: &toml::Value, key: &str) -> (r: Result<Option<Vec<RawSubstitution>>, String>)
    ensures
        r is Ok <==> subs_field_ok(toml_tree(*v), key@),
        r matches Ok(o) ==> subs_field_matches(toml_tree(*v), key@, o),
{
    let x = match toml_get(v, key) {
        None => return Ok(None),
        Some(x) => x,
    };
    let items = match toml_as_array(&x) {
        None => return Err(toml_seq_error(&x)),
        Some(items) => items,
    };
    let ghost a = entry_tree(toml_tree(*v), key@);
    let mut out: Vec<RawSubstitution> = Vec::new();
    let mut i: usize = 0;
    while i < items.len()
        invariant
            a == toml_tree(x),
            a == entry_tree(toml_tree(*v), key@),
            has_key(toml_tree(*v), key@),
            tree_root(a) == Some(TomlNode::Array(items@.len())),
            forall|k: int| 0 <= k < items@.len() ==> toml_tree(#[trigger] items@[k]) == elem_tree(a, k),
            i <= items@.len(),
            out@.len() == i,
            forall|k: int| 0 <= k < i ==> sub_entry_ok(elem_tree(a, k)),
            forall|k: int| 0 <= k < i ==> sub_entry_matches(elem_tree(a, k), #[trigger] out@[k]),
        decreases items@.len() - i,
    {
        assert(toml_tree(items@[i as int]) == elem_tree(a, i as int));
        match read_substitution(&items[i]) {
            Err(m) => {
                assert(!sub_entry_ok(elem_tree(a, i as int)));
                return Err(m);
            },
            Ok(s) => {
                out.push(s);
            },
        }
        i = i + 1;
    }
    Ok(Some(out))
}

fn read_common(t: &toml::Value) -> (r: Result<RawSuite, String>)
    ensures
        r is Ok <==> common_fields_ok(toml_tree(*t)),
        r matches Ok(s) ==> {
            &&& opt_list_view(s.extern_crates) == list_field(toml_tree(*t), "extern_crates"@)
            &&& opt_list_view(s.fixture_dirs) == list_field(toml_tree(*t), "fixture_dirs"@)
            &&& opt_list_view(s.features) == list_field(toml_tree(*t), "features"@)
            &&& opt_view(s.edition) == str_field(toml_tree(*t), "edition"@)
            &&& opt_list_view(s.dev_deps) == list_field(toml_tree(*t), "dev_deps"@)
            &&& opt_view(s.compile_fail_marker) == str_field(toml_tree(*t), "compile_fail_marker"@)
            &&& s.fixture_timeout_secs == u32_field(toml_tree(*t), "fixture_timeout_secs"@)
            &&& s.per_fixture_memory_mb == u32_field(toml_tree(*t), "per_fixture_memory_mb"@)
            &&& opt_list_view(s.allow_lints) == list_field(toml_tree(*t), "allow_lints"@)
            &&& subs_field_matches(toml_tree(*t), "extra_substitutions"@, s.extra_substitutions)
            &&& opt_list_view(s.strip_lines) == list_field(toml_tree(*t), "strip_lines"@)
            &&& opt_list_view(s.strip_line_prefixes) == list_field(toml_tree(*t), "strip_line_prefixes"@)
            &&& opt_view(s.dylib_crate) == str_field(toml_tree(*t), "dylib_crate"@)
            &&& s.name is None
        },
{
    let extern_crates = match read_list(t, "extern_crates") { Err(m) => return Err(m), Ok(o) => o };
    let fixture_dirs = match read_list(t, "fixture_dirs") { Err(m) => return Err(m), Ok(o) => o };
    let features = match read_list(t, "features") { Err(m) => return Err(m), Ok(o) => o };
    let edition = match read_str(t, "edition") { Err(m) => return Err(m), Ok(o) => o };
    let dev_deps = match read_list(t, "dev_deps") { Err(m) => return Err(m), Ok(o) => o };
    let compile_fail_marker = match read_str(t, "compile_fail_marker") { Err(m) => return Err(m), Ok(o) => o };
    let fixture_timeout_secs = match read_u32(t, "fixture_timeout_secs") { Err(m) => return Err(m), Ok(o) => o };
    let per_fixture_memory_mb = match read_u32(t, "per_fixture_memory_mb") { Err(m) => return Err(m), Ok(o) => o };
    let allow_lints = match read_list(t, "allow_lints") { Err(m) => return Err(m), Ok(o) => o };
    let extra_substitutions = match read_substitutions(t, "extra_substitutions") { Err(m) => return Err(m), Ok(o) => o };
    let strip_lines = match read_list(t, "strip_lines") { Err(m) => return Err(m), Ok(o) => o };
    let strip_line_prefixes = match read_list(t, "strip_line_prefixes") { Err(m) => return Err(m), Ok(o) => o };
    let dylib_crate = match read_str(t, "dylib_crate") { Err(m) => return Err(m), Ok(o) => o };
    Ok(RawSuite {
        name: None,
        extern_crates,
        fixture_dirs,
        features,
        edition,
        dev_deps,
        compile_fail_marker,
        fixture_timeout_secs,
        per_fixture_memory_mb,
        allow_lints,
        extra_substitutions,
        strip_lines,
        strip_line_prefixes,
        dylib_crate,
    })
}

fn read_suite(e: &toml::Value) -> (r: Result<RawSuite, String>)
    ensures
        r is Ok <==> suite_entry_ok(toml_tree(*e)),
        r matches Ok(s) ==> suite_entry_matches(toml_tree(*e), s),
{
    if !toml_is_table(e) {
        return Err(toml_table_error(e));
    }
    let mut s = match read_common(e) {
        Err(m) => return Err(m),
        Ok(s) => s,
    };
    let name = match read_str(e, "name") {
        Err(m) => return Err(m),
        Ok(o) => o,
    };
    s.name = name;
    Ok(s)
}

/// The suite entries, in order.
fn read_suites(t: &toml::Value) -> (r: Result<Vec<RawSuite>, String>)
    ensures
        r is Ok <==> suites_field_ok(toml_tree(*t), "suite"@),
        r matches Ok(v) ==> if has_key(toml_tree(*t), "suite"@) {
            tree_root(entry_tree(toml_tree(*t), "suite"@)) == Some(TomlNode::Array(v@.len())) && forall|i: int|
                0 <= i < v@.len() ==> suite_entry_matches(elem_tree(entry_tree(toml_tree(*t), "suite"@), i), #[trigger] v@[i])
        } else {
            v@.len() == 0
        },
{
    let mut suite: Vec<RawSuite> = Vec::new();
    let x = match toml_get(t, "suite") {
        None => return Ok(suite),
        Some(x) => x,
    };
    let items = match toml_as_array(&x) {
        None => return Err(toml_seq_error(&x)),
        Some(items) => items,
    };
    let ghost a = entry_tree(toml_tree(*t), "suite"@);
    let mut i: usize = 0;
    while i < items.len()
        invariant
            a == toml_tree(x),
            a == entry_tree(toml_tree(*t), "suite"@),
            has_key(toml_tree(*t), "suite"@),
            tree_root(a) == Some(TomlNode::Array(items@.len())),
            forall|k: int| 0 <= k < items@.len() ==> toml_tree(#[trigger] items@[k]) == elem_tree(a, k),
            i <= items@.len(),
            suite@.len() == i,
            forall|k: int| 0 <= k < i ==> suite_entry_ok(elem_tree(a, k)),
            forall|k: int| 0 <= k < i ==> suite_entry_matches(elem_tree(a, k), #[trigger] suite@[k]),
        decreases items@.len() - i,
    {
        assert(toml_tree(items@[i as int]) == elem_tree(a, i as int));
        match read_suite(&items[i]) {
            Err(m) => {
                assert(!suite_entry_ok(elem_tree(a, i as int)));
                return Err(m);
            },
            Ok(s) => {
                suite.push(s);
            },
        }
        i = i + 1;
    }
    Ok(suite)
}

/// Reads `[package.metadata.lihaaf]` into typed fields (see
/// [`metadata_ok`]); the error carries serde's message.
pub fn decode_raw_metadata(t: &toml::Value) -> (r: Result<RawMetadata, String>)
    ensures
        r is Ok <==> metadata_ok(toml_tree(*t)),
        r matches Ok(raw) ==> metadata_matches(toml_tree(*t), raw),
{
    if !toml_is_table(t) {
        return Err(toml_table_error(t));
    }
    let c = match read_common(t) {
        Err(m) => return Err(m),
        Ok(c) => c,
    };
    let suite = match read_suites(t) {
        Err(m) => return Err(m),
        Ok(v) => v,
    };
    Ok(RawMetadata {
        dylib_crate: c.dylib_crate,
        extern_crates: c.extern_crates,
        fixture_dirs: c.fixture_dirs,
        features: c.features,
        edition: c.edition,
        dev_deps: c.dev_deps,
        compile_fail_marker: c.compile_fail_marker,
        fixture_timeout_secs: c.fixture_timeout_secs,
        per_fixture_memory_mb: c.per_fixture_memory_mb,
        allow_lints: c.allow_lints,
        extra_substitutions: c.extra_substitutions,
        strip_lines: c.strip_lines,
        strip_line_prefixes: c.strip_line_prefixes,
        suite,
    })
}

} // verus!

verus! {

/// `package.metadata.lihaaf` of a parsed manifest, when every step exists.
pub open spec fn lihaaf_table(t: Map<Seq<TomlSeg>, TomlNode>) -> Option<Map<Seq<TomlSeg>, TomlNode>> {
    if has_key(t, "package"@) && has_key(entry_tree(t, "package"@), "metadata"@) && has_key(
        entry_tree(entry_tree(t, "package"@), "metadata"@),
        "lihaaf"@,
    ) {
        Some(entry_tree(entry_tree(entry_tree(t, "package"@), "metadata"@), "lihaaf"@))
    } else {
        None
    }
}

/// Parses a consumer `Cargo.toml` and validates `[package.metadata.lihaaf]`.
///
/// A document that does not parse gives `TomlParse`; a missing table, a
/// table whose keys do not have their types, or any validation problem
/// (see [`config_spec`]) gives a `ConfigInvalid` outcome.
pub fn parse(toml_text: &str, manifest_path: &str) -> (r: Result<Config, Error>)
    ensures
        match toml_document(toml_text@) {
            Err(msg) => r matches Err(Error::TomlParse { path, message }) && path@ == manifest_path@
                && message@ == msg,
            Ok(t) => match lihaaf_table(t) {
                None => is_config_error(r, MISSING_METADATA_TEXT@),
                Some(lt) => if !metadata_ok(lt) {
                    r matches Err(Error::Session(Outcome::ConfigInvalid { message })) && exists|e: Seq<char>|
                        message@ == #[trigger] could_not_parse_text(e)
                } else {
                    exists|raw: RawMetadata|
                        #![trigger metadata_matches(lt, raw)]
                        metadata_matches(lt, raw) && match config_spec(raw, manifest_path@) {
                            Ok((d, suites)) => r matches Ok(c) && c.dylib_crate@ == d && suites_view(c.suites@)
                                == suites && toml_tree(c.raw_metadata) == lt,
                            Err(m) => is_config_error(r, m),
                        }
                },
            },
        },
        r matches Ok(c) ==> default_first(suites_view(c.suites@)),
{
    let value = match parse_toml_document(toml_text) {
        Err(e) => {
            return Err(Error::TomlParse { path: manifest_path.to_owned(), message: e });
        },
        Ok(v) => v,
    };
    let pkg = match toml_get(&value, "package") {
        None => return Err(Error::Session(Outcome::ConfigInvalid { message: missing_metadata_message() })),
        Some(p) => p,
    };
    let meta = match toml_get(&pkg, "metadata") {
        None => return Err(Error::Session(Outcome::ConfigInvalid { message: missing_metadata_message() })),
        Some(m) => m,
    };
    let lihaaf = match toml_get(&meta, "lihaaf") {
        None => return Err(Error::Session(Outcome::ConfigInvalid { message: missing_metadata_message() })),
        Some(l) => l,
    };
    let raw = match decode_raw_metadata(&lihaaf) {
        Err(e) => {
            let m = could_not_parse_message(e.as_str());
            return Err(Error::Session(Outcome::ConfigInvalid { message: m }));
        },
        Ok(raw) => raw,
    };
    let ghost graw = raw;
    let ghost lt = toml_tree(lihaaf);
    let r = config_from_raw(raw, lihaaf, manifest_path);
    proof {
        assert(metadata_matches(lt, graw));
    }
    r
}

} // verus!

verus! {

proof fn lemma_finish_suite_fields(
    label: Seq<char>,
    name: Seq<char>,
    ext: Seq<Seq<char>>,
    dirs: Seq<Seq<char>>,
    edition: Seq<char>,
    timeout: u32,
    memory: u32,
    timeout_msg: Seq<char>,
    memory_msg: Seq<char>,
    lints: Seq<Seq<char>>,
    features: Seq<Seq<char>>,
    raw_subs: Seq<(Option<Seq<char>>, Option<Seq<char>>)>,
    strip: Seq<Seq<char>>,
    prefixes: Seq<Seq<char>>,
    dev_deps: Seq<Seq<char>>,
    marker: Seq<char>,
)
    ensures
        finish_suite(
            label, name, ext, dirs, edition, timeout, memory, timeout_msg, memory_msg, lints, features, raw_subs,
            strip, prefixes, dev_deps, marker,
        ) matches Ok(s) ==> {
            &&& s.name == name
            &&& s.extern_crates == ext
            &&& s.fixture_dirs == dirs
            &&& s.edition == edition
            &&& s.fixture_timeout_secs == timeout
            &&& s.per_fixture_memory_mb == memory
            &&& s.allow_lints == lints
            &&& s.features == features
            &&& s.extra_substitutions.len() == raw_subs.len()
            &&& s.strip_lines == strip
            &&& s.strip_line_prefixes == prefixes
            &&& s.dev_deps == dev_deps
            &&& s.compile_fail_marker == marker
            &&& timeout != 0
            &&& memory != 0
            &&& allowed_edition(edition)
        },
{
}

/// A named suite that builds does not set `dylib_crate`, has a name that
/// is not `default`, its own non-empty `fixture_dirs`, an extern list led
/// by the dylib crate, positive limits and a known edition. Inheritance:
/// each key the entry sets is taken as written; an omitted `edition`, `fixture_timeout_secs`,
/// `per_fixture_memory_mb`, `allow_lints`, `dev_deps`, `extern_crates` and
/// `compile_fail_marker` is the default suite's value (the top-level
/// table's, not a built-in constant); an omitted `features`,
/// `strip_lines`, `strip_line_prefixes` or `extra_substitutions` is empty.
pub proof fn lemma_named_suite_inherits(dylib: Seq<char>, d: SuiteView, index: nat, raw: RawSuite)
    ensures
        named_suite_spec(dylib, d, index, raw) matches Ok(s) ==> {
            &&& raw.dylib_crate is None
            &&& raw.name matches Some(n) && s.name == n@
            &&& s.name.len() > 0
            &&& s.name != DEFAULT_SUITE_NAME@
            &&& s.fixture_dirs.len() > 0
            &&& s.extern_crates.len() > 0 && s.extern_crates[0] == dylib
            &&& s.fixture_timeout_secs > 0
            &&& s.per_fixture_memory_mb > 0
            &&& allowed_edition(s.edition)
            &&& raw.fixture_dirs matches Some(v) && s.fixture_dirs == v.deep_view()
            &&& (raw.compile_fail_marker matches Some(m) ==> s.compile_fail_marker == m@)
            &&& (raw.compile_fail_marker is None ==> s.compile_fail_marker == d.compile_fail_marker)
            &&& (raw.edition matches Some(e) ==> s.edition == e@)
            &&& (raw.edition is None ==> s.edition == d.edition)
            &&& (raw.fixture_timeout_secs matches Some(t) ==> s.fixture_timeout_secs == t)
            &&& (raw.fixture_timeout_secs is None ==> s.fixture_timeout_secs == d.fixture_timeout_secs)
            &&& (raw.per_fixture_memory_mb matches Some(t) ==> s.per_fixture_memory_mb == t)
            &&& (raw.per_fixture_memory_mb is None ==> s.per_fixture_memory_mb == d.per_fixture_memory_mb)
            &&& (raw.allow_lints matches Some(v) ==> s.allow_lints == v.deep_view())
            &&& (raw.allow_lints is None ==> s.allow_lints == d.allow_lints)
            &&& (raw.dev_deps matches Some(v) ==> s.dev_deps == v.deep_view())
            &&& (raw.dev_deps is None ==> s.dev_deps == d.dev_deps)
            &&& (raw.extern_crates matches Some(v) ==> s.extern_crates == v.deep_view())
            &&& (raw.extern_crates is None ==> s.extern_crates == d.extern_crates)
            &&& (raw.features matches Some(v) ==> s.features == v.deep_view())
            &&& (raw.features is None ==> s.features.len() == 0)
            &&& (raw.strip_lines matches Some(v) ==> s.strip_lines == v.deep_view())
            &&& (raw.strip_lines is None ==> s.strip_lines.len() == 0)
            &&& (raw.strip_line_prefixes matches Some(v) ==> s.strip_line_prefixes == v.deep_view())
            &&& (raw.strip_line_prefixes is None ==> s.strip_line_prefixes.len() == 0)
            &&& (raw.extra_substitutions is None ==> s.extra_substitutions.len() == 0)
        },
{
    if let Ok(s) = named_suite_spec(dylib, d, index, raw) {
        let name = str_or(raw.name, Seq::empty());
        let ext = list_or(raw.extern_crates, d.extern_crates);
        let dirs = raw.fixture_dirs->Some_0;
        lemma_finish_suite_fields(
            name,
            name,
            ext,
            dirs.deep_view(),
            str_or(raw.edition, d.edition),
            u32_or(raw.fixture_timeout_secs, d.fixture_timeout_secs),
            u32_or(raw.per_fixture_memory_mb, d.per_fixture_memory_mb),
            suite_text(name, SUITE_TIMEOUT_ZERO@),
            suite_text(name, SUITE_MEMORY_ZERO@),
            list_or(raw.allow_lints, d.allow_lints),
            list_or(raw.features, Seq::empty()),
            raw_subs_or_empty(raw.extra_substitutions),
            list_or(raw.strip_lines, Seq::empty()),
            list_or(raw.strip_line_prefixes, Seq::empty()),
            list_or(raw.dev_deps, d.dev_deps),
            str_or(raw.compile_fail_marker, d.compile_fail_marker),
        );
        if raw.name is None {
            assert(suite_name_error(index, name) is Some);
        }
    }
}

/// The default suite takes each top-level key as written, and the
/// built-in default for an omitted `compile_fail_marker`, `edition`,
/// `fixture_timeout_secs`, `per_fixture_memory_mb` and `fixture_dirs`.
pub proof fn lemma_default_suite_keys(dylib: Seq<char>, raw: RawMetadata)
    ensures
        default_suite_spec(dylib, raw) matches Ok(s) ==> {
            &&& s.name == DEFAULT_SUITE_NAME@
            &&& s.extern_crates.len() > 0 && s.extern_crates[0] == dylib
            &&& (raw.compile_fail_marker matches Some(m) ==> s.compile_fail_marker == m@)
            &&& (raw.compile_fail_marker is None ==> s.compile_fail_marker == DEFAULT_COMPILE_FAIL_MARKER@)
            &&& (raw.edition matches Some(e) ==> s.edition == e@)
            &&& (raw.edition is None ==> s.edition == DEFAULT_EDITION@)
            &&& (raw.fixture_timeout_secs matches Some(t) ==> s.fixture_timeout_secs == t)
            &&& (raw.fixture_timeout_secs is None ==> s.fixture_timeout_secs == DEFAULT_FIXTURE_TIMEOUT_SECS)
            &&& (raw.per_fixture_memory_mb matches Some(t) ==> s.per_fixture_memory_mb == t)
            &&& (raw.per_fixture_memory_mb is None ==> s.per_fixture_memory_mb == DEFAULT_PER_FIXTURE_MEMORY_MB)
            &&& (raw.fixture_dirs matches Some(v) ==> s.fixture_dirs == v.deep_view())
            &&& (raw.fixture_dirs is None ==> s.fixture_dirs == default_fixture_dirs())
        },
{
    if let Ok(s) = default_suite_spec(dylib, raw) {
        lemma_finish_suite_fields(
            DEFAULT_SUITE_NAME@,
            DEFAULT_SUITE_NAME@,
            list_or(raw.extern_crates, Seq::empty()),
            list_or(raw.fixture_dirs, default_fixture_dirs()),
            str_or(raw.edition, DEFAULT_EDITION@),
            u32_or(raw.fixture_timeout_secs, DEFAULT_FIXTURE_TIMEOUT_SECS),
            u32_or(raw.per_fixture_memory_mb, DEFAULT_PER_FIXTURE_MEMORY_MB),
            invalid_key_text("fixture_timeout_secs"@, TIMEOUT_EXPECTED@, TIMEOUT_WHY@),
            invalid_key_text("per_fixture_memory_mb"@, MEMORY_EXPECTED@, MEMORY_WHY@),
            list_or(raw.allow_lints, Seq::empty()),
            list_or(raw.features, Seq::empty()),
            raw_subs_or_empty(raw.extra_substitutions),
            list_or(raw.strip_lines, Seq::empty()),
            list_or(raw.strip_line_prefixes, Seq::empty()),
            list_or(raw.dev_deps, Seq::empty()),
            str_or(raw.compile_fail_marker, DEFAULT_COMPILE_FAIL_MARKER@),
        );
    }
}

proof fn lemma_named_suites_each(dylib: Seq<char>, d: SuiteView, raws: Seq<RawSuite>, i: int)
    requires
        0 <= i <= raws.len(),
    ensures
        named_suites_spec(dylib, d, raws, i) matches Ok(v) ==> v.len() == i && forall|j: int|
            0 <= j < i ==> named_suite_spec(dylib, d, j as nat, raws[j]) == Ok::<SuiteView, Seq<char>>(
                #[trigger] v[j],
            ),
    decreases i,
{
    if i > 0 {
        lemma_named_suites_each(dylib, d, raws, i - 1);
        if let Ok(v) = named_suites_spec(dylib, d, raws, i) {
            let prev = named_suites_spec(dylib, d, raws, i - 1)->Ok_0;
            assert(v == prev.push(named_suite_spec(dylib, d, (i - 1) as nat, raws[i - 1])->Ok_0));
            assert forall|j: int| 0 <= j < i implies named_suite_spec(dylib, d, j as nat, raws[j])
                == Ok::<SuiteView, Seq<char>>(#[trigger] v[j]) by {
                if j < i - 1 {
                    assert(v[j] == prev[j]);
                }
            }
        }
    }
}

/// In a validated configuration, named suite `i` (at `suites[i + 1]`)
/// that omits `compile_fail_marker` has the default suite's marker: the
/// top-level value when there is one, else the built-in `compile_fail`.
pub proof fn lemma_config_marker_inherited(raw: RawMetadata, manifest: Seq<char>)
    ensures
        config_spec(raw, manifest) matches Ok((dylib, suites)) ==> {
            &&& suites.len() == raw.suite@.len() + 1
            &&& forall|i: int|
                0 <= i < raw.suite@.len() ==> {
                    &&& (raw.suite@[i].compile_fail_marker is None ==> (#[trigger] suites[i + 1]).compile_fail_marker
                        == suites[0].compile_fail_marker)
                    &&& (raw.suite@[i].compile_fail_marker matches Some(m) ==> suites[i + 1].compile_fail_marker == m@)
                }
            &&& (raw.compile_fail_marker matches Some(m) ==> suites[0].compile_fail_marker == m@)
            &&& (raw.compile_fail_marker is None ==> suites[0].compile_fail_marker == DEFAULT_COMPILE_FAIL_MARKER@)
        },
{
    if let Ok((dylib, suites)) = config_spec(raw, manifest) {
        let d = default_suite_spec(dylib, raw)->Ok_0;
        let n = raw.suite@.len() as int;
        let named = named_suites_spec(dylib, d, raw.suite@, n)->Ok_0;
        lemma_default_suite_keys(dylib, raw);
        lemma_named_suites_each(dylib, d, raw.suite@, n);
        assert(suites == seq![d] + named);
        assert forall|i: int| 0 <= i < raw.suite@.len() implies {
            &&& (raw.suite@[i].compile_fail_marker is None ==> (#[trigger] suites[i + 1]).compile_fail_marker
                == suites[0].compile_fail_marker)
            &&& (raw.suite@[i].compile_fail_marker matches Some(m) ==> suites[i + 1].compile_fail_marker == m@)
        } by {
            assert(suites[i + 1] == named[i]);
            lemma_named_suite_inherits(dylib, d, i as nat, raw.suite@[i]);
        }
    }
}

} // verus!
