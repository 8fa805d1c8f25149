# lihaaf

A test harness for proc-macro crates, with a compatibility mode that runs
against crates tested with `trybuild`. The decisions of the harness are a
Verus-verified library; reading files, running `cargo`, `git` and `rustup`,
and the command line sit in a thin program around it.

## Layout

- `src/` — the verified library.
  - `config.rs`, `config_msg.rs`: `[package.metadata.lihaaf]` read into
    validated suites.
  - `discovery.rs`, `paths.rs`, `util.rs`: fixture classification,
    ordering and filtering; lexical path handling.
  - `diff.rs`, `myers.rs`: line diff in GNU unified format; the edit script
    is a shortest one (Myers), deletions before insertions.
  - `normalize.rs`, `text.rs`, `sort.rs`: text helpers and a stable sort.
  - `toml_model.rs`, `toml_doc.rs`, `json_model.rs`: what the library reads
    of `toml` and `serde_json` values, behind trusted wrappers.
  - `compat/`: compatibility mode — the overlay manifest rewrite
    (`overlay/`), test-file discovery decisions, fixture conversion,
    baseline parsing, the CI gate, cleanup bookkeeping and the report.
- `app/` — the program: argument parsing, file system, subprocesses,
  the `syn` walk over test files, and serde copies of the report types.
- `tests/` — tests of the library's public functions.
