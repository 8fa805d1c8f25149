//! Compatibility mode: run lihaaf against a trybuild-based crate.
use vstd::prelude::*;
use crate::cli::Cli;
use crate::compat::baseline::{BaselineResult, BaselineVerdict};
use crate::compat::cleanup::comps_prefix;
use crate::compat::cli::CompatArgs;
use crate::compat::discovery::DiscoveryUnrecognized;
use crate::compat::fixture_convert::ConvertedFixture;
use crate::compat::report::{
    BaselineCounts, Commands, CompatEnvelope, EnvelopeError, GeneratedPath, LihaafCounts, MismatchExample,
    OverlayMetadata, Results,
};
use crate::error::{Error, CONFIG_INVALID_EXIT_CODE};
use crate::paths::{path_comps, path_components, Comp};
use crate::text::{decimal, push_char, push_decimal_u64, push_string};
use crate::util::{relative_spec, relative_to};

pub mod baseline;
pub mod cleanup;
pub mod cli;
pub mod discovery;
pub mod fixture_convert;
pub mod gate;
pub mod overlay;
pub mod report;
pub mod rustup;

verus! {

/// The last component of a path when it is a name.
pub open spec fn file_name_spec(p: Seq<char>) -> Option<Seq<char>> {
    let cs = path_comps(p);
    if cs.len() > 0 && cs.last() is Normal {
        Some(cs.last()->Normal_0)
    } else {
        None
    }
}

/// The crate name to use when the manifest names none: the last
/// component of the crate root, or `unknown`.
pub fn basename_fallback(compat_root: &str) -> (r: String)
    ensures
        r@ == match file_name_spec(compat_root@) {
            Some(n) => n,
            None => "unknown"@,
        },
{
    let cs = path_components(compat_root);
    let n = cs.len();
    if n > 0 {
        match &cs[n - 1] {
            Comp::Normal(name) => {
                return name.clone();
            },
            _ => {},
        }
    }
    "unknown".to_owned()
}

/// Words joined with single spaces.
pub open spec fn join_spaced(parts: Seq<Seq<char>>) -> Seq<char>
    decreases parts.len(),
{
    if parts.len() == 0 {
        Seq::empty()
    } else if parts.len() == 1 {
        parts[0]
    } else {
        join_spaced(parts.drop_last()) + seq![' '] + parts.last()
    }
}

/// An argv as one line.
pub fn render_argv(argv: &Vec<String>) -> (r: String)
    ensures
        r@ == join_spaced(argv.deep_view()),
{
    let mut r = String::new();
    let mut i: usize = 0;
    while i < argv.len()
        invariant
            i <= argv@.len(),
            r@ == join_spaced(argv.deep_view().take(i as int)),
        decreases argv@.len() - i,
    {
        if i > 0 {
            push_char(&mut r, ' ');
        }
        push_string(&mut r, &argv[i]);
        proof {
            let t = argv.deep_view().take(i + 1);
            assert(t.drop_last() =~= argv.deep_view().take(i as int));
            assert(t.last() == argv@[i as int]@);
            if i == 0 {
                assert(r@ =~= t[0]);
            }
        }
        i = i + 1;
    }
    assert(argv.deep_view().take(argv@.len() as int) =~= argv.deep_view());
    r
}

/// `flag` when `on`.
pub open spec fn flag_if(on: bool, flag: Seq<char>) -> Seq<Seq<char>> {
    if on { seq![flag] } else { Seq::empty() }
}

/// `flag v` for each value, in order.
pub open spec fn flag_pairs(flag: Seq<char>, vals: Seq<Seq<char>>) -> Seq<Seq<char>>
    decreases vals.len(),
{
    if vals.len() == 0 {
        Seq::empty()
    } else {
        flag_pairs(flag, vals.drop_last()) + seq![flag, vals.last()]
    }
}

/// The words of the inner lihaaf command as the envelope records it.
pub open spec fn inner_command_parts(args: CompatArgs, rel_manifest: Seq<char>) -> Seq<Seq<char>> {
    let c = args.inner_cli;
    seq!["cargo"@, "lihaaf"@, "--manifest-path"@, rel_manifest] + flag_if(c.bless, "--bless"@) + flag_if(
        c.no_cache,
        "--no-cache"@,
    ) + flag_if(c.list, "--list"@) + flag_if(c.quiet, "--quiet"@) + flag_if(c.verbose, "--verbose"@)
        + flag_if(c.use_symlink, "--use-symlink"@) + flag_if(c.keep_output, "--keep-output"@) + (match c.jobs {
        Some(j) => seq!["--jobs"@, decimal(j as nat)],
        None => Seq::empty(),
    }) + flag_pairs("--suite"@, c.suite.deep_view()) + flag_pairs("--filter"@, args.compat_filter.deep_view())
}

fn push_word(parts: &mut Vec<String>, w: &str)
    ensures
        final(parts).deep_view() == old(parts).deep_view().push(w@),
{
    let ghost before = parts.deep_view();
    parts.push(w.to_owned());
    assert(parts.deep_view() =~= before.push(w@));
}

fn push_jobs(parts: &mut Vec<String>, jobs: Option<u32>)
    ensures
        final(parts).deep_view() == old(parts).deep_view() + (match jobs {
            Some(j) => seq!["--jobs"@, decimal(j as nat)],
            None => Seq::empty(),
        }),
{
    let ghost before = parts.deep_view();
    match jobs {
        Some(j) => {
            push_word(parts, "--jobs");
            let js = usize_to_string_u32(j);
            push_word(parts, js.as_str());
            assert(parts.deep_view() =~= before + seq!["--jobs"@, decimal(j as nat)]);
        },
        None => {
            assert(parts.deep_view() =~= before + Seq::<Seq<char>>::empty());
        },
    }
}

fn push_flag_if(parts: &mut Vec<String>, on: bool, flag: &str)
    ensures
        final(parts).deep_view() == old(parts).deep_view() + flag_if(on, flag@),
{
    let ghost before = parts.deep_view();
    if on {
        push_word(parts, flag);
    }
    assert(parts.deep_view() =~= before + flag_if(on, flag@));
}

fn push_flag_pairs(parts: &mut Vec<String>, flag: &str, vals: &Vec<String>)
    ensures
        final(parts).deep_view() == old(parts).deep_view() + flag_pairs(flag@, vals.deep_view()),
{
    let ghost start = parts.deep_view();
    let mut i: usize = 0;
    while i < vals.len()
        invariant
            i <= vals@.len(),
            parts.deep_view() == start + flag_pairs(flag@, vals.deep_view().take(i as int)),
        decreases vals@.len() - i,
    {
        push_word(parts, flag);
        push_word(parts, vals[i].as_str());
        proof {
            let t = vals.deep_view().take(i + 1);
            assert(t.drop_last() =~= vals.deep_view().take(i as int));
            assert(t.last() == vals@[i as int]@);
            assert(parts.deep_view() =~= start + flag_pairs(flag@, t));
        }
        i = i + 1;
    }
    assert(vals.deep_view().take(vals@.len() as int) =~= vals.deep_view());
}

/// The inner lihaaf command, with the overlay manifest relative to the
/// compat root so the line does not depend on where the run happened.
pub fn render_inner_command(args: &CompatArgs, overlay_manifest: &str, compat_root: &str) -> (r: String)
    requires
        comps_prefix(path_comps(compat_root@), path_comps(overlay_manifest@)),
    ensures
        r@ == join_spaced(inner_command_parts(*args, relative_spec(overlay_manifest@, compat_root@))),
{
    let rel = relative_to(overlay_manifest, compat_root);
    let c = &args.inner_cli;
    let mut parts: Vec<String> = Vec::new();
    push_word(&mut parts, "cargo");
    push_word(&mut parts, "lihaaf");
    push_word(&mut parts, "--manifest-path");
    push_word(&mut parts, rel.as_str());
    let ghost p0 = parts.deep_view();
    assert(p0 =~= seq!["cargo"@, "lihaaf"@, "--manifest-path"@, rel@]);
    push_flag_if(&mut parts, c.bless, "--bless");
    push_flag_if(&mut parts, c.no_cache, "--no-cache");
    push_flag_if(&mut parts, c.list, "--list");
    push_flag_if(&mut parts, c.quiet, "--quiet");
    push_flag_if(&mut parts, c.verbose, "--verbose");
    push_flag_if(&mut parts, c.use_symlink, "--use-symlink");
    push_flag_if(&mut parts, c.keep_output, "--keep-output");
    push_jobs(&mut parts, c.jobs);
    push_flag_pairs(&mut parts, "--suite", &c.suite);
    push_flag_pairs(&mut parts, "--filter", &args.compat_filter);
    render_argv(&parts)
}

fn usize_to_string_u32(n: u32) -> (s: String)
    ensures
        s@ == decimal(n as nat),
{
    let mut s = String::new();
    push_decimal_u64(&mut s, n as u64);
    assert(s@ =~= decimal(n as nat));
    s
}

/// The command line of the inner session: the compat run's own options,
/// pointed at the overlay manifest, with compat snapshots normalized.
pub fn build_inner_cli(args: &CompatArgs, overlay_manifest: &str) -> (c: Cli)
    ensures
        c.bless == args.inner_cli.bless,
        !c.compat,
        c.compat_cargo_test_argv is None,
        c.compat_commit is None,
        c.compat_filter@.len() == 0,
        c.compat_manifest is None,
        c.compat_package is None,
        c.compat_report is None,
        c.compat_root is None,
        c.compat_trybuild_macro@.len() == 0,
        c.filter@ == args.compat_filter@,
        c.jobs == args.inner_cli.jobs,
        c.suite@ == args.inner_cli.suite@,
        c.no_cache == args.inner_cli.no_cache,
        c.manifest_path matches Some(m) && m@ == overlay_manifest@,
        c.list == args.inner_cli.list,
        c.quiet == args.inner_cli.quiet,
        c.verbose == args.inner_cli.verbose,
        c.use_symlink == args.inner_cli.use_symlink,
        c.keep_output == args.inner_cli.keep_output,
        c.inner_compat_normalize,
{
    Cli {
        bless: args.inner_cli.bless,
        compat: false,
        compat_cargo_test_argv: None,
        compat_commit: None,
        compat_filter: Vec::new(),
        compat_manifest: None,
        compat_package: None,
        compat_report: None,
        compat_root: None,
        compat_trybuild_macro: Vec::new(),
        filter: clone_strings(&args.compat_filter),
        jobs: args.inner_cli.jobs,
        suite: clone_strings(&args.inner_cli.suite),
        no_cache: args.inner_cli.no_cache,
        manifest_path: Some(overlay_manifest.to_owned()),
        list: args.inner_cli.list,
        quiet: args.inner_cli.quiet,
        verbose: args.inner_cli.verbose,
        use_symlink: args.inner_cli.use_symlink,
        keep_output: args.inner_cli.keep_output,
        inner_compat_normalize: true,
    }
}

/// A copy of a list of strings.
pub fn clone_strings(v: &Vec<String>) -> (r: Vec<String>)
    ensures
        r@ == v@,
{
    let mut r: Vec<String> = Vec::new();
    let mut i: usize = 0;
    while i < v.len()
        invariant
            i <= v@.len(),
            r@ == v@.take(i as int),
        decreases v@.len() - i,
    {
        let s = v[i].clone();
        r.push(s);
        assert(r@ =~= v@.take(i + 1));
        i = i + 1;
    }
    assert(v@.take(v@.len() as int) =~= v@);
    r
}

/// The mismatch type a baseline verdict gives.
pub open spec fn mismatch_type_text(v: BaselineVerdict) -> Seq<char> {
    match v {
        BaselineVerdict::Pass => "baseline_only_pass"@,
        BaselineVerdict::Fail => "baseline_only_fail"@,
    }
}

/// One envelope example per baseline mismatch, in order.
pub fn build_mismatch_examples(baseline_result: &BaselineResult, converted: &Vec<ConvertedFixture>) -> (r: Vec<
    MismatchExample,
>)
    ensures
        r@.len() == baseline_result.mismatch_entries@.len(),
        forall|i: int|
            0 <= i < r@.len() ==> (#[trigger] r@[i]).fixture@ == baseline_result.mismatch_entries@[i].fixture@
                && r@[i].mismatch_type@ == mismatch_type_text(baseline_result.mismatch_entries@[i].baseline_verdict)
                && r@[i].notes@.len() == 0,
{
    let entries = &baseline_result.mismatch_entries;
    let mut r: Vec<MismatchExample> = Vec::new();
    let mut i: usize = 0;
    while i < entries.len()
        invariant
            i <= entries@.len(),
            entries == &baseline_result.mismatch_entries,
            r@.len() == i,
            forall|k: int|
                0 <= k < i ==> (#[trigger] r@[k]).fixture@ == entries@[k].fixture@ && r@[k].mismatch_type@
                    == mismatch_type_text(entries@[k].baseline_verdict) && r@[k].notes@.len() == 0,
        decreases entries@.len() - i,
    {
        let m = &entries[i];
        let t = match m.baseline_verdict {
            BaselineVerdict::Pass => "baseline_only_pass",
            BaselineVerdict::Fail => "baseline_only_fail",
        };
        r.push(MismatchExample { fixture: m.fixture.clone(), mismatch_type: t.to_owned(), notes: String::new() });
        i = i + 1;
    }
    r
}

/// Exit code recorded for an inner session that ended in an error: a
/// session outcome's own code, otherwise the configuration-error code.
pub fn inner_error_exit_code(e: &Error) -> (c: i32)
    ensures
        c == CONFIG_INVALID_EXIT_CODE,
{
    match e {
        Error::Session(outcome) => outcome.exit_code(),
        _ => CONFIG_INVALID_EXIT_CODE,
    }
}

/// Pass and fail counts of the inner session (saturating at `u32::MAX`)
/// and its exit code: 0 when nothing failed, 1 otherwise.
pub fn lihaaf_side_counts(pass: usize, fail: usize) -> (r: (u32, u32, i32))
    ensures
        r.0 == (if pass <= u32::MAX { pass as u32 } else { u32::MAX }),
        r.1 == (if fail <= u32::MAX { fail as u32 } else { u32::MAX }),
        r.2 == (if r.1 == 0 { 0i32 } else { 1i32 }),
{
    let p: u32 = if pass <= 4294967295 { pass as u32 } else { 4294967295 };
    let f: u32 = if fail <= 4294967295 { fail as u32 } else { 4294967295 };
    (p, f, if f == 0 { 0 } else { 1 })
}

/// An envelope error with no fixture, file or line.
pub open spec fn plain_error(e: EnvelopeError, t: Seq<char>, detail: Seq<char>) -> bool {
    e.error_type@ == t && e.fixture is None && e.file@.len() == 0 && e.line == 0 && e.detail@ == detail
}

fn plain_envelope_error(t: &str, detail: String) -> (e: EnvelopeError)
    ensures
        plain_error(e, t@, detail@),
{
    EnvelopeError { error_type: t.to_owned(), fixture: None, file: String::new(), line: 0, detail }
}

/// The diagnostic errors of a run, in the order of their sources: the
/// toolchain capture, each unrecognized discovery record (its file made
/// relative to the compat root), then the inner session.
pub fn assemble_diagnostic_errors(
    toolchain_capture_error: Option<String>,
    discovery_unrecognized: &Vec<DiscoveryUnrecognized>,
    inner_session_error: Option<String>,
    compat_root: &str,
) -> (r: Vec<EnvelopeError>)
    ensures
        ({
            let t: int = if toolchain_capture_error is Some { 1 } else { 0 };
            let d = discovery_unrecognized@.len();
            &&& r@.len() == t + d + (if inner_session_error is Some { 1int } else { 0 })
            &&& (toolchain_capture_error matches Some(m) ==> plain_error(r@[0], "toolchain_capture_failed"@, m@))
            &&& forall|k: int|
                0 <= k < d ==> {
                    let e = #[trigger] r@[t + k];
                    let u = discovery_unrecognized@[k];
                    &&& e.error_type@ == "discovery_unrecognized"@
                    &&& e.fixture is None
                    &&& e.file@ == relative_spec(u.file@, compat_root@)
                    &&& e.line == (if u.line <= u32::MAX { u.line as u32 } else { u32::MAX })
                    &&& e.detail@ == u.detail@
                }
            &&& (inner_session_error matches Some(m) ==> plain_error(r@[t + d], "lihaaf_session_failed"@, m@))
        }),
{
    let ghost tce = toolchain_capture_error;
    let mut errors: Vec<EnvelopeError> = Vec::new();
    match toolchain_capture_error {
        Some(detail) => {
            errors.push(plain_envelope_error("toolchain_capture_failed", detail));
        },
        None => {},
    }
    let t = errors.len();
    let ghost first = errors@;
    let mut i: usize = 0;
    while i < discovery_unrecognized.len()
        invariant
            i <= discovery_unrecognized@.len(),
            t == (if tce is Some { 1usize } else { 0 }),
            tce matches Some(m) ==> plain_error(first[0], "toolchain_capture_failed"@, m@),
            errors@.len() == t + i,
            forall|k: int| 0 <= k < t ==> errors@[k] == first[k],
            forall|k: int|
                0 <= k < i ==> {
                    let e = #[trigger] errors@[t + k];
                    let u = discovery_unrecognized@[k];
                    &&& e.error_type@ == "discovery_unrecognized"@
                    &&& e.fixture is None
                    &&& e.file@ == relative_spec(u.file@, compat_root@)
                    &&& e.line == (if u.line <= u32::MAX { u.line as u32 } else { u32::MAX })
                    &&& e.detail@ == u.detail@
                },
        decreases discovery_unrecognized@.len() - i,
    {
        let u = &discovery_unrecognized[i];
        let line: u32 = if u.line <= 4294967295 { u.line as u32 } else { 4294967295 };
        errors.push(
            EnvelopeError {
                error_type: "discovery_unrecognized".to_owned(),
                fixture: None,
                file: relative_to(u.file.as_str(), compat_root),
                line,
                detail: u.detail.clone(),
            },
        );
        i = i + 1;
    }
    match inner_session_error {
        Some(detail) => {
            errors.push(plain_envelope_error("lihaaf_session_failed", detail));
        },
        None => {},
    }
    errors
}

/// Records a failed cleanup among the envelope's errors.
pub fn record_cleanup_failure(errors: &mut Vec<EnvelopeError>, detail: String)
    ensures
        final(errors)@.len() == old(errors)@.len() + 1,
        forall|k: int| 0 <= k < old(errors)@.len() ==> final(errors)@[k] == old(errors)@[k],
        plain_error(final(errors)@.last(), "cleanup_failed"@, detail@),
{
    errors.push(plain_envelope_error("cleanup_failed", detail));
}

/// What the inner lihaaf session contributed to a run.
#[derive(Debug, Clone)]
pub struct LihaafSide {
    pub pass: u32,
    pub fail: u32,
    pub exit_code: i32,
    pub dur_ms: u64,
}

/// What the overlay contributed to a run.
#[derive(Debug, Clone)]
pub struct OverlaySide {
    pub sibling_manifest: String,
    pub dropped_comments: Vec<String>,
    pub upstream_already_has_dylib: bool,
}

/// The envelope of a finished run: the crate, both command lines, the
/// two sides' counts, the mismatches (their number saturating at
/// `u32::MAX`), the errors, the generated paths and the overlay facts.
pub fn assemble_envelope(
    args: &CompatArgs,
    crate_name: String,
    compat_root: &str,
    baseline_result: &BaselineResult,
    lihaaf: &LihaafSide,
    overlay: OverlaySide,
    toolchain: String,
    mismatch_examples: Vec<MismatchExample>,
    errors: Vec<EnvelopeError>,
    generated_paths: Vec<GeneratedPath>,
) -> (e: CompatEnvelope)
    requires
        comps_prefix(path_comps(compat_root@), path_comps(overlay.sibling_manifest@)),
    ensures
        e.schema_version == 1,
        e.mode@ == "compat"@,
        e.crate_name == crate_name,
        e.commit@ == (match args.compat_commit {
            Some(c) => c@,
            None => Seq::<char>::empty(),
        }),
        e.commands.baseline@ == join_spaced(baseline_result.argv.deep_view()),
        e.commands.lihaaf@ == join_spaced(
            inner_command_parts(*args, relative_spec(overlay.sibling_manifest@, compat_root@)),
        ),
        e.results.baseline.pass == (match baseline_result.pass {
            Some(n) => n,
            None => 0,
        }),
        e.results.baseline.fail == (match baseline_result.fail {
            Some(n) => n,
            None => 0,
        }),
        e.results.baseline.unknown_count == baseline_result.unknown_count,
        e.results.baseline.exit_code == baseline_result.exit_code,
        e.results.baseline.dur_ms == baseline_result.dur_ms,
        e.results.lihaaf.pass == lihaaf.pass,
        e.results.lihaaf.fail == lihaaf.fail,
        e.results.lihaaf.exit_code == lihaaf.exit_code,
        e.results.lihaaf.dur_ms == lihaaf.dur_ms,
        e.results.lihaaf.toolchain == toolchain,
        e.results.mismatch_count == (if mismatch_examples@.len() <= u32::MAX {
            mismatch_examples@.len() as u32
        } else {
            u32::MAX
        }),
        e.mismatch_examples@ == mismatch_examples@,
        e.errors@ == errors@,
        e.excluded_fixtures@.len() == 0,
        e.generated_paths@ == generated_paths@,
        e.overlay.generated,
        e.overlay.dropped_comments@ == overlay.dropped_comments@,
        e.overlay.upstream_already_has_dylib == overlay.upstream_already_has_dylib,
        e.toolchain == toolchain,
{
    let n = mismatch_examples.len();
    let mismatch_count: u32 = if n <= 4294967295 { n as u32 } else { 4294967295 };
    let commit = match &args.compat_commit {
        Some(c) => c.clone(),
        None => String::new(),
    };
    let baseline_cmd = render_argv(&baseline_result.argv);
    let lihaaf_cmd = render_inner_command(args, overlay.sibling_manifest.as_str(), compat_root);
    let lihaaf_toolchain = toolchain.clone();
    CompatEnvelope {
        schema_version: 1,
        mode: "compat".to_owned(),
        crate_name,
        commit,
        commands: Commands { baseline: baseline_cmd, lihaaf: lihaaf_cmd },
        results: Results {
            baseline: BaselineCounts {
                pass: match baseline_result.pass {
                    Some(p) => p,
                    None => 0,
                },
                fail: match baseline_result.fail {
                    Some(f) => f,
                    None => 0,
                },
                unknown_count: baseline_result.unknown_count,
                exit_code: baseline_result.exit_code,
                dur_ms: baseline_result.dur_ms,
            },
            lihaaf: LihaafCounts {
                pass: lihaaf.pass,
                fail: lihaaf.fail,
                exit_code: lihaaf.exit_code,
                dur_ms: lihaaf.dur_ms,
                toolchain: lihaaf_toolchain,
            },
            mismatch_count,
        },
        mismatch_examples,
        errors,
        excluded_fixtures: Vec::new(),
        generated_paths,
        overlay: OverlayMetadata {
            generated: true,
            dropped_comments: overlay.dropped_comments,
            upstream_already_has_dylib: overlay.upstream_already_has_dylib,
        },
        toolchain,
    }
}

} // verus!
