//! The texts of the configuration errors, as spec functions and builders.
use vstd::prelude::*;
use crate::text::{decimal, push_decimal, push_str};

verus! {

/// `[package.metadata.lihaaf].<key> must be <expected>.` with its reason.
pub open spec fn invalid_key_text(key: Seq<char>, expected: Seq<char>, why: Seq<char>) -> Seq<char> {
    "[package.metadata.lihaaf]."@ + key + " must be "@ + expected + ".\nWhy this matters: "@ + why + "."@
}

pub fn format_invalid_key(key: &str, expected: &str, why: &str) -> (m: String)
    ensures
        m@ == invalid_key_text(key@, expected@, why@),
{
    let mut m = String::new();
    push_str(&mut m, "[package.metadata.lihaaf].");
    push_str(&mut m, key);
    push_str(&mut m, " must be ");
    push_str(&mut m, expected);
    push_str(&mut m, ".\nWhy this matters: ");
    push_str(&mut m, why);
    push_str(&mut m, ".");
    m
}

pub const MISSING_METADATA_TEXT: &'static str = "lihaaf needs `[package.metadata.lihaaf]` to know what to build.\n\
       Add the table to your Cargo.toml. See the lihaaf README for the\n\
       minimum required keys.";

pub fn missing_metadata_message() -> (m: String)
    ensures
        m@ == MISSING_METADATA_TEXT@,
{
    let mut m = String::new();
    push_str(&mut m, MISSING_METADATA_TEXT);
    m
}

pub open spec fn could_not_parse_text(detail: Seq<char>) -> Seq<char> {
    "[package.metadata.lihaaf] could not be parsed.\n  "@ + detail
        + "\nWhy this matters: the harness needs typed values to dispatch fixtures."@
}

pub fn could_not_parse_message(detail: &str) -> (m: String)
    ensures
        m@ == could_not_parse_text(detail@),
{
    let mut m = String::new();
    push_str(&mut m, "[package.metadata.lihaaf] could not be parsed.\n  ");
    push_str(&mut m, detail);
    push_str(&mut m, "\nWhy this matters: the harness needs typed values to dispatch fixtures.");
    m
}

pub const EXTERN_LINK_WHY: &'static str = "\").\nWhy this matters: the dylib's `--extern` flag is the link the fixture takes back to the consumer crate.";

/// `extern_crates[0]` of the default suite differs from `dylib_crate`.
pub open spec fn extern_mismatch_text(first: Seq<char>, dylib: Seq<char>) -> Seq<char> {
    "extern_crates[0] (\""@ + first + "\") must equal dylib_crate (\""@ + dylib + EXTERN_LINK_WHY@
}

pub fn extern_mismatch_message(first: &str, dylib: &str) -> (m: String)
    ensures
        m@ == extern_mismatch_text(first@, dylib@),
{
    let mut m = String::new();
    push_str(&mut m, "extern_crates[0] (\"");
    push_str(&mut m, first);
    push_str(&mut m, "\") must equal dylib_crate (\"");
    push_str(&mut m, dylib);
    push_str(&mut m, EXTERN_LINK_WHY);
    m
}

/// `extern_crates[0]` of a named suite differs from `dylib_crate`.
pub open spec fn suite_extern_mismatch_text(name: Seq<char>, first: Seq<char>, dylib: Seq<char>) -> Seq<char> {
    "suite \""@ + name + "\".extern_crates[0] (\""@ + first + "\") must equal dylib_crate (\""@ + dylib
        + EXTERN_LINK_WHY@
}

pub fn suite_extern_mismatch_message(name: &str, first: &str, dylib: &str) -> (m: String)
    ensures
        m@ == suite_extern_mismatch_text(name@, first@, dylib@),
{
    let mut m = String::new();
    push_str(&mut m, "suite \"");
    push_str(&mut m, name);
    push_str(&mut m, "\".extern_crates[0] (\"");
    push_str(&mut m, first);
    push_str(&mut m, "\") must equal dylib_crate (\"");
    push_str(&mut m, dylib);
    push_str(&mut m, EXTERN_LINK_WHY);
    m
}

/// `suite "<name>"<tail>`.
pub open spec fn suite_text(name: Seq<char>, tail: Seq<char>) -> Seq<char> {
    "suite \""@ + name + "\""@ + tail
}

pub fn suite_message(name: &str, tail: &str) -> (m: String)
    ensures
        m@ == suite_text(name@, tail@),
{
    let mut m = String::new();
    push_str(&mut m, "suite \"");
    push_str(&mut m, name);
    push_str(&mut m, "\"");
    push_str(&mut m, tail);
    m
}

pub const SUITE_EXTERN_EMPTY: &'static str = ".extern_crates is empty.\nWhy this matters: every fixture needs at least one --extern flag (the dylib_crate).";

pub const SUITE_DIRS_REQUIRED: &'static str = ".fixture_dirs is required.\nWhy this matters: a named suite must declare its own fixture directories so its snapshot files don't collide with another suite's.";

pub const SUITE_DIRS_EMPTY: &'static str = ".fixture_dirs is an empty array.\nWhy this matters: a named suite that runs zero fixtures contributes no signal.";

pub const SUITE_TIMEOUT_ZERO: &'static str = ".fixture_timeout_secs must be a positive integer.\nWhy this matters: a zero timeout would kill every fixture immediately.";

pub const SUITE_MEMORY_ZERO: &'static str = ".per_fixture_memory_mb must be a positive integer.\nWhy this matters: a zero ceiling would kill every fixture instantly.";

/// `[[package.metadata.lihaaf.suite]] entry #<index><tail>`.
pub open spec fn entry_text(index: nat, tail: Seq<char>) -> Seq<char> {
    "[[package.metadata.lihaaf.suite]] entry #"@ + decimal(index) + tail
}

pub fn entry_message(index: usize, tail: &str) -> (m: String)
    ensures
        m@ == entry_text(index as nat, tail@),
{
    let mut m = String::new();
    push_str(&mut m, "[[package.metadata.lihaaf.suite]] entry #");
    push_decimal(&mut m, index);
    push_str(&mut m, tail);
    m
}

pub const ENTRY_SETS_DYLIB: &'static str = " sets `dylib_crate`, which is not a per-suite key.\nWhy this matters: lihaaf builds one consumer crate per session; the suite system varies the FEATURE SET passed to that crate, not the crate identity.";

pub const ENTRY_MISSING_NAME: &'static str = " is missing the required `name` key.\nWhy this matters: lihaaf addresses suites by name on the CLI (`--suite NAME`) and in per-suite manifest paths.";

pub const RESERVED_NAME_TEXT: &'static str = "[[package.metadata.lihaaf.suite]] name \"default\" is reserved for the implicit suite built from the top-level [package.metadata.lihaaf] table.\nWhy this matters: a CLI invocation `--suite default` would be ambiguous if a named suite also claimed the name.";

pub open spec fn bad_name_text(name: Seq<char>) -> Seq<char> {
    "[[package.metadata.lihaaf.suite]] name \""@ + name + BAD_NAME_TAIL@
}

pub const BAD_NAME_TAIL: &'static str = "\" must contain only ASCII alphanumeric characters, hyphens, or underscores.\nWhy this matters: the suite name is used in filesystem paths (`target/lihaaf/manifest-<name>.json`, `target/lihaaf-build-<name>/`) and on the CLI.";

pub fn bad_name_message(name: &str) -> (m: String)
    ensures
        m@ == bad_name_text(name@),
{
    let mut m = String::new();
    push_str(&mut m, "[[package.metadata.lihaaf.suite]] name \"");
    push_str(&mut m, name);
    push_str(&mut m, BAD_NAME_TAIL);
    m
}

pub open spec fn edition_text(label: Seq<char>, edition: Seq<char>) -> Seq<char> {
    label + ".edition \""@ + edition + EDITION_TAIL@
}

pub const EDITION_TAIL: &'static str = "\" is not in the allowed set (2015, 2018, 2021, 2024).\nWhy this matters: rustc's `--edition` accepts only those values.";

pub fn edition_message(label: &str, edition: &str) -> (m: String)
    ensures
        m@ == edition_text(label@, edition@),
{
    let mut m = String::new();
    push_str(&mut m, label);
    push_str(&mut m, ".edition \"");
    push_str(&mut m, edition);
    push_str(&mut m, EDITION_TAIL);
    m
}

/// `<label><tail>`.
pub open spec fn labelled_text(label: Seq<char>, tail: Seq<char>) -> Seq<char> {
    label + tail
}

pub fn labelled_message(label: &str, tail: &str) -> (m: String)
    ensures
        m@ == labelled_text(label@, tail@),
{
    let mut m = String::new();
    push_str(&mut m, label);
    push_str(&mut m, tail);
    m
}

pub const LINT_EMPTY: &'static str = ".allow_lints contains an empty string.\n\
                     Why this matters: an empty string is not a valid lint name and would produce an unrecognized flag on the rustc argv.";

pub const LINT_NUL: &'static str = ".allow_lints entry contains a NUL byte.\n\
                     Why this matters: an interior NUL byte cannot appear in a POSIX argv token; \
                     spawn would reject the argv and the failure would surface as WORKER_CRASHED \
                     instead of an actionable CONFIG_INVALID.";

pub const LINT_DASH_TAIL: &'static str = "\" starts with `-`.\n\
                     Why this matters: lihaaf supplies the `-A` prefix itself; including it in the entry would produce `-A -A <lint>` on the rustc argv.";

pub const LINT_TOKEN_TAIL: &'static str = "\" contains whitespace, quotes, or a backslash.\n\
                     Why this matters: each entry must be a single argv token; whitespace or shell-meta characters would either break argv tokenization or smuggle extra flags past rustc's argument parser.";

/// `<label>.allow_lints entry "<lint>"<tail>`.
pub open spec fn lint_entry_text(label: Seq<char>, lint: Seq<char>, tail: Seq<char>) -> Seq<char> {
    label + ".allow_lints entry \""@ + lint + tail
}

pub fn lint_entry_message(label: &str, lint: &str, tail: &str) -> (m: String)
    ensures
        m@ == lint_entry_text(label@, lint@, tail@),
{
    let mut m = String::new();
    push_str(&mut m, label);
    push_str(&mut m, ".allow_lints entry \"");
    push_str(&mut m, lint);
    push_str(&mut m, tail);
    m
}

pub const FEATURE_EMPTY: &'static str = ".features contains an empty string.\n\
                     Why this matters: each entry must be a single argv token forwarded as \
                     `--features` to cargo and `--cfg feature=\"...\"` to rustc; an empty \
                     string is not a valid feature name.";

pub const FEATURE_NUL: &'static str = ".features entry contains a NUL byte.\n\
                     Why this matters: each entry must be a single argv token forwarded as \
                     `--features` to cargo and `--cfg feature=\"...\"` to rustc; an interior \
                     NUL byte cannot appear in a POSIX argv token and spawn would reject it, \
                     surfacing as WORKER_CRASHED instead of an actionable CONFIG_INVALID.";

/// `<label>.<key>[<i>]<tail>`.
pub open spec fn indexed_text(label: Seq<char>, key: Seq<char>, i: nat, tail: Seq<char>) -> Seq<char> {
    label + "."@ + key + "["@ + decimal(i) + "]"@ + tail
}

pub fn indexed_message(label: &str, key: &str, i: usize, tail: &str) -> (m: String)
    ensures
        m@ == indexed_text(label@, key@, i as nat, tail@),
{
    let mut m = String::new();
    push_str(&mut m, label);
    push_str(&mut m, ".");
    push_str(&mut m, key);
    push_str(&mut m, "[");
    push_decimal(&mut m, i);
    push_str(&mut m, "]");
    push_str(&mut m, tail);
    m
}

/// `<label>.<key>[<i>]<mid><value><tail>`.
pub open spec fn indexed_value_text(label: Seq<char>, key: Seq<char>, i: nat, mid: Seq<char>, value: Seq<char>, tail: Seq<char>) -> Seq<char> {
    indexed_text(label, key, i, mid) + value + tail
}

pub fn indexed_value_message(label: &str, key: &str, i: usize, mid: &str, value: &str, tail: &str) -> (m: String)
    ensures
        m@ == indexed_value_text(label@, key@, i as nat, mid@, value@, tail@),
{
    let mut m = indexed_message(label, key, i, mid);
    push_str(&mut m, value);
    push_str(&mut m, tail);
    m
}

pub const SUB_FROM_EMPTY: &'static str = ".from is empty.\n\
                     Why this matters: an empty `from` would match the start of every byte and rewrite arbitrary content.\n\
                     extra_substitutions is for path-shaped substitution only.";

pub const SUB_FROM_NOT_PATH_MID: &'static str = ".from = \"";

pub const SUB_FROM_NOT_PATH_TAIL: &'static str = "\" is not path-like \
                     (must contain '/', '\\\\', or be a bare $X placeholder token, \
                     where X is an ASCII uppercase letter). \
                     Patterns starting with '$' must have an ASCII uppercase letter \
                     immediately after, regardless of path separators — '$lowercase/path' is rejected. \
                     Bare placeholder patterns are full-string anchored: '$DIR-', '$RUST.', '$A!' \
                     are rejected; '$DIR/x' is accepted via the path-separator branch. \
                     extra_substitutions is for path-shaped substitution only, \
                     not arbitrary text rewriting.";

pub const SUB_TO_NEWLINE: &'static str = ".to contains a newline character; \
                     replacements must be single-line.\n\
                     Why this matters: a multi-line `to` would inject blank lines into normalized stderr and break snapshot determinism.";

pub const SUB_MISSING_FROM: &'static str = " is missing the required `from` key.\n\
                     Why this matters: every entry must specify which substring to match.";

pub const SUB_MISSING_TO: &'static str = " is missing the required `to` key.\n\
                     Why this matters: every entry must specify the replacement string \
                     (use an empty string `to = \"\"` to strip the match).";

pub const STRIP_NEWLINE: &'static str = " contains a newline character; \
                     strip patterns must be single-line.";

pub const STRIP_SHAPE_MID: &'static str = " = \"";

pub const STRIP_SHAPE_TAIL: &'static str = "\" is neither path-shaped nor banner-shaped \
                     (must contain '/', '\\\\', start with a $X placeholder token where X is an \
                     ASCII uppercase letter, OR match the banner allowlist). \
                     Patterns starting with '$' must have an ASCII uppercase letter immediately after, \
                     regardless of path separators — '$lowercase/path' is rejected. \
                     Bare placeholder patterns are full-string anchored: '$DIR-', '$RUST.', '$A!' \
                     are rejected; '$DIR/x' is accepted via the path-separator branch. \
                     Strip patterns target path-shaped environment noise OR known banner shapes only.";

pub const DYLIB_NUL_TEXT: &'static str = "[package.metadata.lihaaf].dylib_crate contains a NUL byte.\n\
                 Why this matters: the crate name is forwarded as a `-p` argv token to cargo; \
                 an interior NUL byte cannot appear in a POSIX argv token and spawn would reject \
                 it, surfacing as WORKER_CRASHED instead of an actionable CONFIG_INVALID.";

pub open spec fn duplicate_name_text(name: Seq<char>) -> Seq<char> {
    "duplicate suite name \""@ + name + DUPLICATE_TAIL@
}

pub const DUPLICATE_TAIL: &'static str = "\".\nWhy this matters: suite names are how the CLI selects which suite to run.";

pub fn duplicate_name_message(name: &str) -> (m: String)
    ensures
        m@ == duplicate_name_text(name@),
{
    let mut m = String::new();
    push_str(&mut m, "duplicate suite name \"");
    push_str(&mut m, name);
    push_str(&mut m, DUPLICATE_TAIL);
    m
}

pub open spec fn shared_dir_text(dir: Seq<char>, suite: Seq<char>, other_dir: Seq<char>, other_suite: Seq<char>) -> Seq<char> {
    "fixture_dirs path \""@ + dir + "\" in suite \""@ + suite + "\" resolves to the same directory as \""@
        + other_dir + "\" in suite \""@ + other_suite + SHARED_DIR_TAIL@
}

pub const SHARED_DIR_TAIL: &'static str = "\".\nWhy this matters: snapshot files (.stderr) live next to the .rs fixtures; two suites sharing a directory would write conflicting snapshots.";

pub fn shared_dir_message(dir: &str, suite: &str, other_dir: &str, other_suite: &str) -> (m: String)
    ensures
        m@ == shared_dir_text(dir@, suite@, other_dir@, other_suite@),
{
    let mut m = String::new();
    push_str(&mut m, "fixture_dirs path \"");
    push_str(&mut m, dir);
    push_str(&mut m, "\" in suite \"");
    push_str(&mut m, suite);
    push_str(&mut m, "\" resolves to the same directory as \"");
    push_str(&mut m, other_dir);
    push_str(&mut m, "\" in suite \"");
    push_str(&mut m, other_suite);
    push_str(&mut m, SHARED_DIR_TAIL);
    m
}

} // verus!
