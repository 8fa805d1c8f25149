//! The compat-mode view of the command line.
use vstd::prelude::*;
use crate::cli::{is_cli_error, Cli};
use crate::error::Error;
use crate::json_model::{
    as_leaf, json_array_items, json_as_string, json_document, json_kind, json_of, json_parse, leaf_kind,
    node_kind, JsonKind, JsonLeaf, JsonNode,
};
use crate::text::{decimal, push_decimal, push_str, push_string};
use crate::util::{join_path, join_spec};

verus! {

/// The compat-mode settings, with every path absolute.
#[derive(Debug, Clone)]
pub struct CompatArgs {
    pub compat_root: String,
    pub compat_report: String,
    pub compat_cargo_test_argv: Vec<String>,
    pub compat_manifest: Option<String>,
    pub compat_package: Option<String>,
    pub compat_commit: Option<String>,
    pub compat_filter: Vec<String>,
    pub compat_trybuild_macro: Vec<String>,
    pub inner_cli: Cli,
}

pub const DEFAULT_CARGO_TEST_ARGV_JSON: &'static str = "[\"cargo\",\"test\"]";

/// The name `json_value_kind` gives a kind in messages.
pub open spec fn kind_name(k: JsonKind) -> Seq<char> {
    match k {
        JsonKind::Null => "null"@,
        JsonKind::Boolean => "boolean"@,
        JsonKind::Number => "number"@,
        JsonKind::Str => "string"@,
        JsonKind::Array => "array"@,
        JsonKind::Object => "object"@,
    }
}

pub fn json_value_kind(k: JsonKind) -> (r: &'static str)
    ensures
        r@ == kind_name(k),
{
    match k {
        JsonKind::Null => "null",
        JsonKind::Boolean => "boolean",
        JsonKind::Number => "number",
        JsonKind::Str => "string",
        JsonKind::Array => "array",
        JsonKind::Object => "object",
    }
}

pub const ARGV_SHAPE_TEXT: &'static str = "error: `--compat-cargo-test-argv` must be a JSON array of strings (e.g. `[\"cargo\",\"test\"]`); ";

pub open spec fn argv_malformed_text(m: Seq<char>) -> Seq<char> {
    ARGV_SHAPE_TEXT@ + "failed to parse as JSON: "@ + m
}

pub open spec fn argv_not_array_text(k: JsonKind) -> Seq<char> {
    ARGV_SHAPE_TEXT@ + "got a JSON "@ + kind_name(k)
}

pub open spec fn argv_element_text(i: nat, k: JsonKind) -> Seq<char> {
    "error: `--compat-cargo-test-argv` element at index "@ + decimal(i) + " is a JSON "@ + kind_name(k)
        + " but every element must be a JSON string"@
}

/// Position of the first element that is not a string.
pub open spec fn first_non_string(ls: Seq<JsonLeaf>) -> Option<nat>
    decreases ls.len(),
{
    if ls.len() == 0 {
        None
    } else if !(ls.last() is Str) && first_non_string(ls.drop_last()) is None {
        Some((ls.len() - 1) as nat)
    } else {
        first_non_string(ls.drop_last())
    }
}

/// What `--compat-cargo-test-argv` holding `text` yields: the strings of a
/// JSON array of strings, or the message of the first problem.
pub open spec fn argv_spec(text: Seq<char>) -> Result<Seq<Seq<char>>, Seq<char>> {
    match json_document(text) {
        Err(m) => Err(argv_malformed_text(m)),
        Ok(JsonNode::Array(ls)) => match first_non_string(ls) {
            Some(i) => Err(argv_element_text(i, leaf_kind(ls[i as int]))),
            None => Ok(Seq::new(ls.len(), |i: int| ls[i]->Str_0)),
        },
        Ok(n) => Err(argv_not_array_text(node_kind(n))),
    }
}

proof fn lemma_first_non_string(ls: Seq<JsonLeaf>, i: int)
    requires
        0 <= i <= ls.len(),
        forall|j: int| 0 <= j < i ==> (#[trigger] ls[j]) is Str,
    ensures
        i < ls.len() && !(ls[i] is Str) ==> first_non_string(ls.take(i + 1)) == Some(i as nat),
        first_non_string(ls.take(i)) is None,
    decreases i,
{
    if i > 0 {
        lemma_first_non_string(ls, i - 1);
        assert(ls.take(i).drop_last() =~= ls.take(i - 1));
    }
    if i < ls.len() {
        assert(ls.take(i + 1).drop_last() =~= ls.take(i));
    }
    assert(ls.take(0) =~= Seq::<JsonLeaf>::empty());
}

/// Parses `--compat-cargo-test-argv`: a JSON array of strings.
pub fn parse_argv_json(s: &str) -> (r: Result<Vec<String>, Error>)
    ensures
        match argv_spec(s@) {
            Ok(argv) => r matches Ok(v) && v.deep_view() == argv,
            Err(m) => r matches Err(e) && is_cli_error(e, m),
        },
{
    let value = match json_parse(s) {
        Err(e) => {
            let mut m = String::new();
            push_str(&mut m, ARGV_SHAPE_TEXT);
            push_str(&mut m, "failed to parse as JSON: ");
            push_string(&mut m, &e);
            return Err(Error::Cli { clap_exit_code: 2, message: m });
        },
        Ok(v) => v,
    };
    let arr = match json_array_items(&value) {
        None => {
            let mut m = String::new();
            push_str(&mut m, ARGV_SHAPE_TEXT);
            push_str(&mut m, "got a JSON ");
            push_str(&mut m, json_value_kind(json_kind(&value)));
            return Err(Error::Cli { clap_exit_code: 2, message: m });
        },
        Some(a) => a,
    };
    let ghost ls = json_of(value)->Array_0;
    let mut argv: Vec<String> = Vec::new();
    let mut idx: usize = 0;
    while idx < arr.len()
        invariant
            json_document(s@) == Ok::<JsonNode, Seq<char>>(JsonNode::Array(ls)),
            arr@.len() == ls.len(),
            forall|i: int| 0 <= i < ls.len() ==> as_leaf(json_of(#[trigger] arr@[i])) == ls[i],
            idx <= arr@.len(),
            argv@.len() == idx,
            forall|j: int| 0 <= j < idx ==> ((#[trigger] ls[j]) matches JsonLeaf::Str(t) && argv@[j]@ == t),
        decreases arr@.len() - idx,
    {
        match json_as_string(&arr[idx]) {
            Some(t) => {
                argv.push(t);
            },
            None => {
                let k = json_kind(&arr[idx]);
                proof {
                    lemma_first_non_string(ls, idx as int);
                    assert(ls.take(idx + 1) =~= ls.take(idx as int).push(ls[idx as int]));
                    assert(first_non_string(ls) == Some(idx as nat)) by {
                        lemma_first_non_string_prefix(ls, idx as int);
                    }
                }
                let mut m = String::new();
                push_str(&mut m, "error: `--compat-cargo-test-argv` element at index ");
                push_decimal(&mut m, idx);
                push_str(&mut m, " is a JSON ");
                push_str(&mut m, json_value_kind(k));
                push_str(&mut m, " but every element must be a JSON string");
                return Err(Error::Cli { clap_exit_code: 2, message: m });
            },
        }
        idx = idx + 1;
    }
    proof {
        lemma_first_non_string(ls, ls.len() as int);
        assert(ls.take(ls.len() as int) =~= ls);
        assert(argv.deep_view() =~= Seq::new(ls.len(), |i: int| ls[i]->Str_0));
    }
    Ok(argv)
}

/// Once a prefix holds the first non-string, the whole sequence agrees.
proof fn lemma_first_non_string_prefix(ls: Seq<JsonLeaf>, i: int)
    requires
        0 <= i < ls.len(),
        forall|j: int| 0 <= j < i ==> (#[trigger] ls[j]) is Str,
        !(ls[i] is Str),
    ensures
        first_non_string(ls) == Some(i as nat),
    decreases ls.len(),
{
    if ls.len() == i + 1 {
        lemma_first_non_string(ls, i);
        assert(ls.take(i + 1) =~= ls);
    } else {
        lemma_first_non_string_prefix(ls.drop_last(), i);
    }
}

/// `path` made absolute against the working directory `cwd` (when it is
/// needed and could be read).
pub open spec fn absolute_spec(path: Seq<char>, cwd: Result<Seq<char>, Seq<char>>) -> Result<Seq<char>, Seq<char>> {
    if path.len() > 0 && path[0] == '/' {
        Ok(path)
    } else {
        match cwd {
            Ok(d) => Ok(join_spec(d, path)),
            Err(m) => Err(m),
        }
    }
}

pub const CWD_ROOT_REPORT: &'static str = "obtaining cwd to absolutize --compat-root / --compat-report";

pub const CWD_ROOT_MANIFEST: &'static str = "obtaining cwd to absolutize --compat-root / --compat-manifest";

fn absolutize(path: &String, cwd: &Result<String, String>, context: &str) -> (r: Result<String, Error>)
    ensures
        match absolute_spec(path@, cwd_view(*cwd)) {
            Ok(p) => r matches Ok(s) && s@ == p,
            Err(m) => r matches Err(Error::Io { context: c, path: None, message }) && c@ == context@
                && message@ == m,
        },
{
    let cs = crate::text::chars_of(path.as_str());
    if cs.len() > 0 && cs[0] == '/' {
        return Ok(path.clone());
    }
    match cwd {
        Ok(d) => Ok(join_path(d.as_str(), path.as_str())),
        Err(m) => Err(Error::Io { context: context.to_owned(), path: None, message: m.clone() }),
    }
}

/// `r` is the I/O error of failing to read the working directory while
/// making a path absolute: `context` and the failure's message, no path.
pub open spec fn is_cwd_error(r: Result<CompatArgs, Error>, context: Seq<char>, message: Seq<char>) -> bool {
    r matches Err(Error::Io { context: c, path: None, message: m }) && c@ == context && m@ == message
}

pub open spec fn cwd_view(cwd: Result<String, String>) -> Result<Seq<char>, Seq<char>> {
    match cwd {
        Ok(d) => Ok(d@),
        Err(m) => Err(m@),
    }
}

impl CompatArgs {
    /// The compat settings of a command line that passed the mode checks:
    /// root, report and manifest made absolute against `cwd` (the working
    /// directory, or the message of the failure to read it), and the
    /// baseline argv parsed from its JSON (`["cargo","test"]` by default).
    pub fn from_cli(cli: Cli, cwd: Result<String, String>) -> (r: Result<CompatArgs, Error>)
        requires
            cli.compat_root is Some,
            cli.compat_report is Some,
        ensures
            ({
                let root = absolute_spec(cli.compat_root->0@, cwd_view(cwd));
                let report = absolute_spec(cli.compat_report->0@, cwd_view(cwd));
                let argv_text = match cli.compat_cargo_test_argv {
                    Some(t) => t@,
                    None => DEFAULT_CARGO_TEST_ARGV_JSON@,
                };
                let manifest = match cli.compat_manifest {
                    Some(m) => Some(absolute_spec(m@, cwd_view(cwd))),
                    None => None,
                };
                if root is Err {
                    is_cwd_error(r, CWD_ROOT_REPORT@, root->Err_0)
                } else if report is Err {
                    is_cwd_error(r, CWD_ROOT_REPORT@, report->Err_0)
                } else if argv_spec(argv_text) is Err {
                    r matches Err(e) && is_cli_error(e, argv_spec(argv_text)->Err_0)
                } else if manifest matches Some(Err(_)) {
                    is_cwd_error(r, CWD_ROOT_MANIFEST@, manifest->Some_0->Err_0)
                } else {
                    r matches Ok(a) && a.compat_root@ == root->Ok_0 && a.compat_report@ == report->Ok_0
                        && a.compat_cargo_test_argv.deep_view() == argv_spec(argv_text)->Ok_0 && (match manifest {
                        Some(Ok(m)) => a.compat_manifest matches Some(x) && x@ == m,
                        _ => a.compat_manifest is None,
                    }) && a.compat_package == cli.compat_package && a.compat_commit == cli.compat_commit
                        && a.compat_filter@ == cli.compat_filter@ && a.compat_trybuild_macro@
                        == cli.compat_trybuild_macro@ && a.inner_cli == cli
                }
            }),
    {
        let root_in = match &cli.compat_root {
            Some(p) => p.clone(),
            None => String::new(),
        };
        let compat_root = absolutize(&root_in, &cwd, CWD_ROOT_REPORT)?;
        let report_in = match &cli.compat_report {
            Some(p) => p.clone(),
            None => String::new(),
        };
        let compat_report = absolutize(&report_in, &cwd, CWD_ROOT_REPORT)?;
        let compat_cargo_test_argv = match &cli.compat_cargo_test_argv {
            Some(t) => parse_argv_json(t.as_str())?,
            None => parse_argv_json(DEFAULT_CARGO_TEST_ARGV_JSON)?,
        };
        let compat_manifest = match &cli.compat_manifest {
            None => None,
            Some(m) => Some(absolutize(m, &cwd, CWD_ROOT_MANIFEST)?),
        };
        let compat_package = cli.compat_package.clone();
        let compat_commit = cli.compat_commit.clone();
        let compat_filter = cli.compat_filter.clone();
        let compat_trybuild_macro = cli.compat_trybuild_macro.clone();
        Ok(CompatArgs {
            compat_root,
            compat_report,
            compat_cargo_test_argv,
            compat_manifest,
            compat_package,
            compat_commit,
            compat_filter,
            compat_trybuild_macro,
            inner_cli: cli,
        })
    }
}

} // verus!
