//! Dolt binary management, repo initialization, and SQL execution.
//!
//! Provides [`DoltConnection`], which runs `dolt sql` for SQL operations against
//! a local Dolt repo. Dolt commit tracking is managed via the git state branch.

use serde_json::Value;
use vstd::prelude::*;

use crate::backend::{argv1, argv2, argv3, argv5, argv6, write_text, Backend};
use crate::environment::{Env, EnvView};
use crate::failure::{context, contextual, fail, failed, outcome, wrapped, Failure, Outcome};
use crate::json::{
    compact_json, copy_value, entry_trees, field_of, json_compact, json_parsed, map_list,
    open_value, parse_json, trees, value_tree, Entries, JsonView, Shape,
};
use crate::number::{integer_read, parse_i64, parse_usize};
use crate::paths::{join_path, path_join};
use crate::text::{
    cat, cat3, cat4, cat5, chars_of, decimal, found_at, joined, number_text, replace, replaced,
    same, stands_at, trim, trimmed, Text,
};
use crate::world::World;

verus! {

// ─── Binary management ───────────────────────────────────────────────

/// Known Dolt release version to download.
pub const DOLT_VERSION: &'static str = "1.85.0";

/// The failure where `HOME` is not set.
pub open spec fn no_home() -> Seq<Text> {
    wrapped("HOME not set"@, failed("environment variable not found"@))
}

/// The directory of the binary under a home directory.
pub open spec fn bin_dir_path(home: Text) -> Text {
    path_join(path_join(home, ".subcontext"@), "bin"@)
}

/// The binary under the home directory of an environment.
pub open spec fn global_bin(env: EnvView) -> Outcome<Text> {
    match env.home {
        None => Err(no_home()),
        Some(home) => Ok(path_join(bin_dir_path(home), "dolt"@)),
    }
}

/// The directory of the binary: `~/.subcontext/bin`.
fn global_bin_dir(env: &Env) -> (r: Result<String, Failure>)
    ensures
        outcome(r) == (match env@.home {
            None => Err(no_home()),
            Some(home) => Ok(bin_dir_path(home)),
        }),
{
    match &env.home {
        None => Err(fail("environment variable not found").within("HOME not set")),
        Some(home) => {
            let base = join_path(home.as_str(), ".subcontext");
            Ok(join_path(base.as_str(), "bin"))
        },
    }
}

/// Return the global Dolt binary path: `~/.subcontext/bin/dolt`.
pub fn global_dolt_bin(env: &Env) -> (r: Result<String, Failure>)
    ensures
        outcome(r) == global_bin(env@),
{
    let dir = global_bin_dir(env)?;
    Ok(join_path(dir.as_str(), "dolt"))
}

/// Looking for the binary on the PATH.
pub open spec fn which_run(w: World) -> (World, Outcome<Text>) {
    let (w, found) = w.capture("which"@, seq!["dolt"@], None);
    match found {
        Ok(output) if output.success && trimmed(output.stdout).len() > 0 => (
            w,
            Ok(trimmed(output.stdout)),
        ),
        _ => (
            w,
            Err(
                failed(
                    "dolt binary not found. Run `subcontext install` to download it, or install dolt manually and ensure it's on PATH."@,
                ),
            ),
        ),
    }
}

/// Finding the binary.
pub open spec fn find_bin_run(w: World, env: EnvView) -> (World, Outcome<Text>) {
    match global_bin(env) {
        Err(_) => which_run(w),
        Ok(path) => {
            let (w, there) = w.is_file(path);
            if there {
                (w, Ok(path))
            } else {
                which_run(w)
            }
        },
    }
}

/// Find the Dolt binary. Checks:
/// 1. `~/.subcontext/bin/dolt`
/// 2. `dolt` on PATH
pub fn find_dolt_bin<B: Backend>(backend: &mut B, env: &Env) -> (r: Result<String, Failure>)
    ensures
        (final(backend).world(), outcome(r)) == find_bin_run(old(backend).world(), env@),
{
    // Check global install location first
    if let Ok(global) = global_dolt_bin(env) {
        if backend.is_file(global.as_str()) {
            return Ok(global);
        }
    }
    // Check PATH

    if let Ok(output) = backend.capture("which", &argv1("dolt"), None) {
        if output.success {
            let path = trim(output.stdout.as_str());
            if !path.as_str().is_empty() {
                return Ok(path);
            }
        }
    }
    Err(
        fail(
            "dolt binary not found. Run `subcontext install` to download it, or install dolt manually and ensure it's on PATH.",
        ),
    )
}

/// The platform by the names that Dolt releases have.
pub open spec fn dolt_platform(os: Text, arch: Text) -> Option<(Text, Text)> {
    if os == "linux"@ && arch == "x86_64"@ {
        Some(("linux"@, "amd64"@))
    } else if os == "linux"@ && arch == "aarch64"@ {
        Some(("linux"@, "arm64"@))
    } else if os == "macos"@ && arch == "x86_64"@ {
        Some(("darwin"@, "amd64"@))
    } else if os == "macos"@ && arch == "aarch64"@ {
        Some(("darwin"@, "arm64"@))
    } else {
        None
    }
}

/// The platform by the names that Dolt releases have.
fn platform_names(os: &str, arch: &str) -> (r: Option<(String, String)>)
    ensures
        r.deep_view() == dolt_platform(os@, arch@),
{
    if same(os, "linux") && same(arch, "x86_64") {
        Some(("linux".to_owned(), "amd64".to_owned()))
    } else if same(os, "linux") && same(arch, "aarch64") {
        Some(("linux".to_owned(), "arm64".to_owned()))
    } else if same(os, "macos") && same(arch, "x86_64") {
        Some(("darwin".to_owned(), "amd64".to_owned()))
    } else if same(os, "macos") && same(arch, "aarch64") {
        Some(("darwin".to_owned(), "arm64".to_owned()))
    } else {
        None
    }
}

/// The name of a release: `dolt-<os>-<arch>`.
pub open spec fn release_name(os: Text, arch: Text) -> Text {
    "dolt-"@ + os + "-"@ + arch
}

/// Where a release is downloaded from.
pub open spec fn release_url(os: Text, arch: Text) -> Text {
    "https://github.com/dolthub/dolt/releases/download/v"@ + DOLT_VERSION@ + "/"@ + release_name(
        os,
        arch,
    ) + ".tar.gz"@
}

/// The shell command that downloads a release and unpacks its binary.
pub open spec fn download_command(os: Text, arch: Text, bin_dir: Text) -> Text {
    "curl -fsSL '"@ + release_url(os, arch) + "' | tar xz -C '"@ + bin_dir
        + "' --strip-components=2 '"@ + (release_name(os, arch) + "/bin/dolt"@) + "'"@
}

/// Fetching the release for a platform into `bin_dir`.
pub open spec fn fetch_run(w: World, os: Text, arch: Text, bin_dir: Text) -> (
    World,
    Outcome<Text>,
) {
    let dest = path_join(bin_dir, "dolt"@);
    let w = w.note(
        "[subcontext] Downloading dolt v"@ + DOLT_VERSION@ + " for "@ + (os + "/"@ + arch)
            + "..."@,
    );
    let (w, ran) = w.capture(
        "sh"@,
        seq!["-c"@, download_command(os, arch, bin_dir)],
        None,
    );
    match contextual(ran, "failed to run curl | tar"@) {
        Err(e) => (w, Err(e)),
        Ok(output) => if !output.success {
            (w, Err(failed("failed to download dolt from "@ + release_url(os, arch))))
        } else {
            let (w, set) = w.set_mode(dest, 0o755);
            match set {
                Err(e) => (w, Err(e)),
                Ok(_) => (w.note("[subcontext] Dolt installed to "@ + dest), Ok(dest)),
            }
        },
    }
}

/// Downloading the binary.
pub open spec fn download_run(w: World, env: EnvView) -> (World, Outcome<Text>) {
    match env.home {
        None => (w, Err(no_home())),
        Some(home) => {
            let bin_dir = bin_dir_path(home);
            let dest = path_join(bin_dir, "dolt"@);
            let (w, made) = w.create_dir_all(bin_dir);
            match made {
                Err(e) => (w, Err(e)),
                Ok(_) => {
                    let (w, there) = w.is_file(dest);
                    if there {
                        (
                            w.note("[subcontext] Dolt binary already exists at "@ + dest),
                            Ok(dest),
                        )
                    } else {
                        match dolt_platform(env.os, env.arch) {
                            None => (
                                w,
                                Err(
                                    failed(
                                        "unsupported platform: "@ + env.os + "/"@ + env.arch
                                            + ". Please install dolt manually."@,
                                    ),
                                ),
                            ),
                            Some((os, arch)) => fetch_run(w, os, arch, bin_dir),
                        }
                    }
                },
            }
        },
    }
}

/// Fetch the release for a platform into `bin_dir`.
fn fetch<B: Backend>(backend: &mut B, os: &str, arch: &str, bin_dir: &str) -> (r: Result<
    String,
    Failure,
>)
    ensures
        (final(backend).world(), outcome(r)) == fetch_run(
            old(backend).world(),
            os@,
            arch@,
            bin_dir@,
        ),
{
    let dest = join_path(bin_dir, "dolt");
    let name = cat4("dolt-", os, "-", arch);
    let url = cat5(
        "https://github.com/dolthub/dolt/releases/download/v",
        DOLT_VERSION,
        "/",
        name.as_str(),
        ".tar.gz",
    );
    let platform = cat3(os, "/", arch);
    let line = cat5(
        "[subcontext] Downloading dolt v",
        DOLT_VERSION,
        " for ",
        platform.as_str(),
        "...",
    );
    backend.note(line.as_str());

    // Download and extract in one pipeline
    let member = cat(name.as_str(), "/bin/dolt");
    let head = cat5(
        "curl -fsSL '",
        url.as_str(),
        "' | tar xz -C '",
        bin_dir,
        "' --strip-components=2 '",
    );
    let command = cat3(head.as_str(), member.as_str(), "'");
    let output = context(
        backend.capture("sh", &argv2("-c", command.as_str()), None),
        "failed to run curl | tar",
    )?;
    if !output.success {
        let message = cat("failed to download dolt from ", url.as_str());
        return Err(fail(message.as_str()));
    }
    backend.set_permissions_mode(dest.as_str(), 0o755)?;
    let line = cat("[subcontext] Dolt installed to ", dest.as_str());
    backend.note(line.as_str());
    Ok(dest)
}

/// Download the Dolt binary to `~/.subcontext/bin/dolt`.
pub fn download_dolt<B: Backend>(backend: &mut B, env: &Env) -> (r: Result<String, Failure>)
    ensures
        (final(backend).world(), outcome(r)) == download_run(old(backend).world(), env@),
{
    let bin_dir = global_bin_dir(env)?;
    backend.create_dir_all(bin_dir.as_str())?;
    let dest = join_path(bin_dir.as_str(), "dolt");
    if backend.is_file(dest.as_str()) {
        let line = cat("[subcontext] Dolt binary already exists at ", dest.as_str());
        backend.note(line.as_str());
        return Ok(dest);
    }
    match platform_names(env.os.as_str(), env.arch.as_str()) {
        None => {
            let message = cat5(
                "unsupported platform: ",
                env.os.as_str(),
                "/",
                env.arch.as_str(),
                ". Please install dolt manually.",
            );
            Err(fail(message.as_str()))
        },
        Some((os, arch)) => fetch(backend, os.as_str(), arch.as_str(), bin_dir.as_str()),
    }
}

// ─── Dolt repo initialization ────────────────────────────────────────

/// Initializing a Dolt repository.
pub open spec fn init_run(w: World, env: EnvView, path: Text) -> (World, Outcome<()>) {
    let (w, made) = w.create_dir_all(path);
    match made {
        Err(e) => (w, Err(e)),
        Ok(_) => {
            let (w, there) = w.is_dir(path_join(path, ".dolt"@));
            if there {
                (w, Ok(()))
            } else {
                let (w, bin) = find_bin_run(w, env);
                match bin {
                    Err(e) => (w, Err(e)),
                    Ok(bin) => {
                        let (w, ran) = w.capture(
                            bin,
                            seq![
                                "init"@,
                                "--name"@,
                                "subcontext"@,
                                "--email"@,
                                "subcontext@local"@,
                            ],
                            Some(path),
                        );
                        match contextual(ran, "failed to run dolt init in "@ + path) {
                            Err(e) => (w, Err(e)),
                            Ok(output) => if output.success {
                                (w, Ok(()))
                            } else {
                                (w, Err(failed("dolt init failed in "@ + path)))
                            },
                        }
                    },
                }
            }
        },
    }
}

/// Initialize a Dolt repository at the given path.
pub fn init_dolt_repo<B: Backend>(backend: &mut B, env: &Env, dolt_path: &str) -> (r: Result<
    (),
    Failure,
>)
    ensures
        (final(backend).world(), outcome(r)) == init_run(old(backend).world(), env@, dolt_path@),
{
    backend.create_dir_all(dolt_path)?;

    // Check if already initialized
    let marker = join_path(dolt_path, ".dolt");
    if backend.is_dir(marker.as_str()) {
        return Ok(());
    }
    let dolt_bin = find_dolt_bin(backend, env)?;
    let message = cat("failed to run dolt init in ", dolt_path);
    let output = context(
        backend.capture(
            dolt_bin.as_str(),
            &argv5("init", "--name", "subcontext", "--email", "subcontext@local"),
            Some(dolt_path),
        ),
        message.as_str(),
    )?;
    if !output.success {
        let message = cat("dolt init failed in ", dolt_path);
        return Err(fail(message.as_str()));
    }
    Ok(())
}

// ─── Parameter substitution ──────────────────────────────────────────

/// A text as a literal of SQL: in single quotes, with each quote in it doubled.
pub open spec fn sql_literal(s: Text) -> Text {
    "'"@ + replaced(s, "'"@, "''"@) + "'"@
}

/// Escape a string value for SQL (wrap in single quotes, escape inner quotes).
pub fn sql_escape_string(s: &str) -> (r: String)
    ensures
        r@ == sql_literal(s@),
{
    proof {
        reveal_strlit("'");
    }
    let inner = replace(s, "'", "''");
    cat3("'", inner.as_str(), "'")
}

/// The place that parameter `n` fills.
pub open spec fn placeholder(n: nat) -> Text {
    seq!['?'] + decimal(n)
}

/// The parameter, among the first `count`, whose place a text begins with: the
/// one with the highest number, so that `?10` is not taken for `?1`. Zero where
/// it begins with none.
pub open spec fn place_in(s: Text, count: nat) -> nat
    decreases count,
{
    if count == 0 || placeholder(count).is_prefix_of(s) {
        count
    } else {
        place_in(s, (count - 1) as nat)
    }
}

pub proof fn lemma_place_in(s: Text, count: nat)
    ensures
        place_in(s, count) <= count,
        place_in(s, count) > 0 ==> placeholder(place_in(s, count)).is_prefix_of(s),
        forall|n: nat|
            place_in(s, count) < n <= count ==> !(#[trigger] placeholder(n)).is_prefix_of(s),
    decreases count,
{
    if count > 0 && !placeholder(count).is_prefix_of(s) {
        lemma_place_in(s, (count - 1) as nat);
    }
}

/// A statement with its parameters filled in: each place of the statement is
/// replaced by the value of its parameter, escaped. What stands in a value is no
/// place.
pub open spec fn substituted(sql: Text, params: Seq<Text>) -> Text
    decreases sql.len(),
{
    let n = place_in(sql, params.len());
    if sql.len() == 0 {
        Seq::empty()
    } else if n == 0 {
        seq![sql[0]] + substituted(sql.skip(1), params)
    } else {
        proof {
            lemma_place_in(sql, params.len());
        }
        sql_literal(params[n - 1]) + substituted(sql.skip(placeholder(n).len() as int), params)
    }
}

/// The parameter whose place stands at a position, and how long that is.
fn place_at(chars: &Vec<char>, at: usize, count: usize) -> (r: Option<(usize, usize)>)
    requires
        at <= chars@.len(),
    ensures
        ({
            let n = place_in(chars@.skip(at as int), count as nat);
            match r {
                None => n == 0,
                Some((number, len)) => number == n && n > 0 && len == placeholder(n).len(),
            }
        }),
{
    let ghost rest = chars@.skip(at as int);
    let mut n: usize = count;
    while n > 0
        invariant
            n <= count,
            at <= chars@.len(),
            rest == chars@.skip(at as int),
            place_in(rest, count as nat) == place_in(rest, n as nat),
        decreases n,
    {
        let number = number_text(n);
        let place = chars_of(cat("?", number.as_str()).as_str());
        proof {
            reveal_strlit("?");
            assert(place@ =~= placeholder(n as nat));
            assert(stands_at(chars@, place@, at as int) == place@.is_prefix_of(rest)) by {
                if at + place@.len() <= chars@.len() {
                    assert(chars@.subrange(at as int, at + place@.len()) =~= rest.subrange(
                        0,
                        place@.len() as int,
                    ));
                }
            }
        }
        if found_at(chars, &place, at) {
            return Some((n, place.len()));
        }
        n = n - 1;
    }
    None
}

/// Substitute `?1`, `?2`, etc. with SQL-escaped parameter values.
pub fn substitute_params(sql: &str, params: &[&str]) -> (r: String)
    ensures
        r@ == substituted(sql@, params.deep_view()),
{
    let ghost all = params.deep_view();
    let chars = chars_of(sql);
    let mut out = String::new();
    let mut at: usize = 0;
    assert(sql@.skip(0) =~= sql@);
    assert(out@ + substituted(sql@, all) =~= substituted(sql@, all));
    while at < chars.len()
        invariant
            at <= chars@.len(),
            chars@ == sql@,
            all == params.deep_view(),
            substituted(sql@, all) == out@ + substituted(sql@.skip(at as int), all),
        decreases chars@.len() - at,
    {
        let ghost before = out@;
        let ghost rest = sql@.skip(at as int);
        proof {
            lemma_place_in(rest, all.len());
        }
        match place_at(&chars, at, params.len()) {
            None => {
                let c: char = chars[at];
                out.push(c);
                at = at + 1;
                proof {
                    let tail = sql@.skip(at as int);
                    assert(rest.skip(1) =~= tail);
                    assert(before + (seq![c] + substituted(tail, all)) =~= before.push(c)
                        + substituted(tail, all));
                }
            },
            Some((n, len)) => {
                let escaped = sql_escape_string(params[n - 1]);
                out.append(escaped.as_str());
                assert(all[n - 1] == params@[n - 1]@);
                at = at + len;
                proof {
                    let tail = sql@.skip(at as int);
                    assert(rest.skip(len as int) =~= tail);
                    assert(before + (escaped@ + substituted(tail, all)) =~= (before + escaped@)
                        + substituted(tail, all));
                }
            },
        }
    }
    assert(sql@.skip(at as int) =~= Seq::<char>::empty());
    assert(out@ + Seq::<char>::empty() =~= out@);
    out
}

// ─── JSON result parsing ─────────────────────────────────────────────

/// The values of an object, in its order.
pub open spec fn row_values(entries: Entries) -> Seq<JsonView> {
    entries.map_values(|e: (Text, JsonView)| e.1)
}

/// The rows among the items: those that are objects.
pub open spec fn rows_among(items: Seq<JsonView>) -> Seq<Seq<JsonView>>
    decreases items.len(),
{
    if items.len() == 0 {
        Seq::empty()
    } else {
        match items.last() {
            JsonView::Record(entries) => rows_among(items.drop_last()).push(row_values(entries)),
            _ => rows_among(items.drop_last()),
        }
    }
}

/// The rows that the output of `dolt sql -r json` holds.
pub open spec fn rows_read(output: Text) -> Outcome<Seq<Seq<JsonView>>> {
    let text = trimmed(output);
    if text.len() == 0 {
        Ok(Seq::empty())
    } else {
        match json_parsed(text) {
            Err(e) => Err(wrapped("failed to parse dolt JSON output: "@ + text, failed(e))),
            Ok(tree) => match field_of(tree, "rows"@) {
                Some(JsonView::List(items)) => Ok(rows_among(items)),
                _ => Ok(Seq::empty()),
            },
        }
    }
}

/// What rows hold.
pub open spec fn row_trees(rows: Seq<Vec<Value>>) -> Seq<Seq<JsonView>> {
    rows.map_values(|row: Vec<Value>| trees(row@))
}

/// The view of rows that may fail.
pub open spec fn rows_outcome(r: Result<Vec<Vec<Value>>, Failure>) -> Outcome<Seq<Seq<JsonView>>> {
    match r {
        Ok(rows) => Ok(row_trees(rows@)),
        Err(e) => Err(e@),
    }
}

/// The values of an object, in its order.
fn values_of(list: Vec<(String, Value)>) -> (r: Vec<Value>)
    ensures
        trees(r@) == row_values(entry_trees(list@)),
{
    let mut out: Vec<Value> = Vec::new();
    let mut i: usize = 0;
    while i < list.len()
        invariant
            i <= list@.len(),
            out@.len() == i,
            forall|j: int| 0 <= j < i ==> value_tree(#[trigger] out@[j]) == value_tree(list@[j].1),
        decreases list@.len() - i,
    {
        out.push(copy_value(&list[i].1));
        i = i + 1;
    }
    assert(trees(out@) =~= row_values(entry_trees(list@)));
    out
}

/// Parse `dolt sql -r json` output into rows of column values.
///
/// Dolt JSON output looks like:
/// ```json
/// {"rows": [{"col1": "val1", "col2": 42}, ...]}
/// ```
pub fn parse_dolt_json_rows(json_str: &str) -> (r: Result<Vec<Vec<Value>>, Failure>)
    ensures
        rows_outcome(r) == rows_read(json_str@),
{
    let mut result: Vec<Vec<Value>> = Vec::new();
    assert(row_trees(result@) =~= Seq::empty());
    let text = trim(json_str);
    if text.as_str().is_empty() {
        return Ok(result);
    }
    let parsed = match parse_json(text.as_str()) {
        Ok(v) => v,
        Err(e) => {
            let message = cat("failed to parse dolt JSON output: ", text.as_str());
            return Err(fail(e.as_str()).within(message.as_str()));
        },
    };
    let items = match crate::json::field(&parsed, "rows") {
        Some(rows) => match open_value(rows) {
            Shape::List(items) => items,
            _ => {
                return Ok(result);
            },
        },
        None => {
            return Ok(result);
        },
    };
    let ghost all = trees(items@);
    let mut i: usize = 0;
    assert(row_trees(result@) =~= rows_among(all.take(0)));
    while i < items.len()
        invariant
            i <= items@.len(),
            all == trees(items@),
            row_trees(result@) == rows_among(all.take(i as int)),
        decreases items@.len() - i,
    {
        let ghost before = row_trees(result@);
        proof {
            assert(all.take(i + 1).drop_last() =~= all.take(i as int));
            assert(all.take(i + 1).last() == value_tree(items@[i as int]));
        }
        match open_value(copy_value(&items[i])) {
            Shape::Record(map) => {
                // Preserve insertion order
                let values = values_of(map_list(map));
                result.push(values);
                assert(row_trees(result@) =~= before.push(trees(values@)));
            },
            _ => {},
        }
        i = i + 1;
    }
    assert(all.take(items@.len() as int) =~= all);
    Ok(result)
}

// ─── DoltRow ─────────────────────────────────────────────────────────

/// A single row from a Dolt query result.
/// Column values are JSON values and can be extracted by index.
pub struct DoltRow<'a> {
    pub columns: &'a [Value],
}

impl<'a> View for DoltRow<'a> {
    type V = Seq<JsonView>;

    open spec fn view(&self) -> Seq<JsonView> {
        trees(self.columns@)
    }
}

/// Trait for converting a JSON value to a Rust type.
pub trait FromDoltValue: Sized + DeepView {
    /// What a value is converted to.
    spec fn converted(tree: JsonView) -> Outcome<<Self as DeepView>::V>;

    fn from_dolt_value(v: &Value) -> (r: Result<Self, Failure>)
        ensures
            outcome(r) == Self::converted(value_tree(*v)),
    ;
}

/// The column at an index, converted.
pub open spec fn column<T: FromDoltValue>(row: Seq<JsonView>, idx: nat) -> Outcome<
    <T as DeepView>::V,
> {
    if idx >= row.len() {
        Err(
            failed(
                "column index "@ + decimal(idx) + " out of range (have "@ + decimal(row.len())
                    + " columns)"@,
            ),
        )
    } else {
        T::converted(row[idx as int])
    }
}

impl<'a> DoltRow<'a> {
    /// Get column value at the given index, converted to the requested type.
    pub fn get<T: FromDoltValue>(&self, idx: usize) -> (r: Result<T, Failure>)
        ensures
            outcome(r) == column::<T>(self@, idx as nat),
    {
        assert(self@.len() == self.columns@.len());
        if idx >= self.columns.len() {
            let wanted = number_text(idx);
            let have = number_text(self.columns.len());
            let message = cat5(
                "column index ",
                wanted.as_str(),
                " out of range (have ",
                have.as_str(),
                " columns)",
            );
            return Err(fail(message.as_str()));
        }
        assert(self@[idx as int] == value_tree(self.columns@[idx as int]));
        T::from_dolt_value(&self.columns[idx])
    }
}

/// A value as text: a text itself, a number as it is written, anything else as
/// JSON.
pub open spec fn shown(tree: JsonView) -> Text {
    match tree {
        JsonView::Text(s) => s,
        JsonView::Number(text, _) => text,
        _ => json_compact(tree),
    }
}

/// A value as text.
fn show(v: &Value) -> (r: String)
    ensures
        r@ == shown(value_tree(*v)),
{
    match open_value(copy_value(v)) {
        Shape::Text(s) => s,
        Shape::Number(text, _) => text,
        _ => compact_json(v),
    }
}

impl FromDoltValue for String {
    open spec fn converted(tree: JsonView) -> Outcome<Text> {
        match tree {
            JsonView::Null => Err(failed("unexpected NULL for String column"@)),
            _ => Ok(shown(tree)),
        }
    }

    fn from_dolt_value(v: &Value) -> (r: Result<String, Failure>) {
        match open_value(copy_value(v)) {
            Shape::Null => Err(fail("unexpected NULL for String column")),
            _ => Ok(show(v)),
        }
    }
}

impl FromDoltValue for Option<String> {
    open spec fn converted(tree: JsonView) -> Outcome<Option<Text>> {
        match tree {
            JsonView::Null => Ok(None),
            _ => Ok(Some(shown(tree))),
        }
    }

    fn from_dolt_value(v: &Value) -> (r: Result<Option<String>, Failure>) {
        match open_value(copy_value(v)) {
            Shape::Null => Ok(None),
            _ => Ok(Some(show(v))),
        }
    }
}

impl FromDoltValue for i64 {
    open spec fn converted(tree: JsonView) -> Outcome<i64> {
        match tree {
            JsonView::Number(_, Some(n)) => Ok(n),
            JsonView::Number(_, None) => Err(failed("invalid i64"@)),
            JsonView::Text(s) => match integer_read(s, i64::MIN as int, i64::MAX as int) {
                Ok(n) => Ok(n as i64),
                Err(e) => Err(wrapped("invalid i64 string"@, failed(e))),
            },
            JsonView::Null => Ok(0),
            _ => Err(failed("expected number, got "@ + json_compact(tree))),
        }
    }

    fn from_dolt_value(v: &Value) -> (r: Result<i64, Failure>) {
        match open_value(copy_value(v)) {
            Shape::Number(_, whole) => match whole {
                Some(n) => Ok(n),
                None => Err(fail("invalid i64")),
            },
            Shape::Text(s) => match parse_i64(s.as_str()) {
                Ok(n) => Ok(n),
                Err(e) => Err(fail(e.as_str()).within("invalid i64 string")),
            },
            Shape::Null => Ok(0),
            _ => {
                let text = compact_json(v);
                let message = cat("expected number, got ", text.as_str());
                Err(fail(message.as_str()))
            },
        }
    }
}

impl FromDoltValue for usize {
    open spec fn converted(tree: JsonView) -> Outcome<usize> {
        match tree {
            JsonView::Number(_, Some(n)) => Ok(n as usize),
            JsonView::Number(_, None) => Err(failed("invalid usize"@)),
            JsonView::Text(s) => match integer_read(s, 0, usize::MAX as int) {
                Ok(n) => Ok(n as usize),
                Err(e) => Err(wrapped("invalid usize string"@, failed(e))),
            },
            JsonView::Null => Ok(0),
            _ => Err(failed("expected number, got "@ + json_compact(tree))),
        }
    }

    fn from_dolt_value(v: &Value) -> (r: Result<usize, Failure>) {
        match open_value(copy_value(v)) {
            Shape::Number(_, whole) => match whole {
                Some(n) => Ok(n as usize),
                None => Err(fail("invalid usize")),
            },
            Shape::Text(s) => match parse_usize(s.as_str()) {
                Ok(n) => Ok(n),
                Err(e) => Err(fail(e.as_str()).within("invalid usize string")),
            },
            Shape::Null => Ok(0),
            _ => {
                let text = compact_json(v);
                let message = cat("expected number, got ", text.as_str());
                Err(fail(message.as_str()))
            },
        }
    }
}

// ─── DoltConnection ──────────────────────────────────────────────────

/// A connection to a local Dolt repository.
/// All SQL operations shell out to `dolt sql`.
pub struct DoltConnection {
    /// Path to the Dolt repository (contains `.dolt/`).
    pub repo_path: String,
    /// Path to the dolt binary.
    pub dolt_bin: String,
}

/// The view of a connection.
pub struct DoltView {
    pub repo: Text,
    pub bin: Text,
}

impl View for DoltConnection {
    type V = DoltView;

    open spec fn view(&self) -> DoltView {
        DoltView { repo: self.repo_path@, bin: self.dolt_bin@ }
    }
}

impl DeepView for DoltConnection {
    type V = DoltView;

    open spec fn deep_view(&self) -> DoltView {
        self@
    }
}

/// Opening a connection.
pub open spec fn open_run(w: World, env: EnvView, repo: Text) -> (World, Outcome<DoltView>) {
    let (w, bin) = find_bin_run(w, env);
    match bin {
        Err(e) => (w, Err(e)),
        Ok(bin) => (w, Ok(DoltView { repo, bin })),
    }
}

impl DoltView {
    /// Running a command of `dolt`: `what` tells it where it cannot be run,
    /// `tail` is put behind what it prints where it fails.
    pub open spec fn command(self, w: World, args: Seq<Text>, what: Text, tail: Text) -> (
        World,
        Outcome<Text>,
    ) {
        let (w, ran) = w.capture(self.bin, args, Some(self.repo));
        match contextual(ran, "failed to run dolt "@ + what + " in "@ + self.repo) {
            Err(e) => (w, Err(e)),
            Ok(output) => if output.success {
                (w, Ok(output.stdout))
            } else {
                (
                    w,
                    Err(
                        failed(
                            "dolt "@ + what + " failed: "@ + trimmed(output.stderr) + tail,
                        ),
                    ),
                )
            },
        }
    }

    /// Running a statement.
    pub open spec fn sql(self, w: World, sql: Text) -> (World, Outcome<Text>) {
        self.command(w, seq!["sql"@, "-q"@, sql], "sql"@, "\nSQL: "@ + sql)
    }

    /// Running a statement whose rows are wanted.
    pub open spec fn rows(self, w: World, sql: Text) -> (World, Outcome<Seq<Seq<JsonView>>>) {
        let (w, output) = self.command(
            w,
            seq!["sql"@, "-r"@, "json"@, "-q"@, sql],
            "sql"@,
            "\nSQL: "@ + sql,
        );
        match output {
            Err(e) => (w, Err(e)),
            Ok(output) => (w, rows_read(output)),
        }
    }

    /// Running a statement with parameters.
    pub open spec fn execute(self, w: World, sql: Text, params: Seq<Text>) -> (World, Outcome<()>) {
        self.execute_batch(w, substituted(sql, params))
    }

    /// Running statements.
    pub open spec fn execute_batch(self, w: World, sql: Text) -> (World, Outcome<()>) {
        let (w, done) = self.sql(w, sql);
        match done {
            Err(e) => (w, Err(e)),
            Ok(_) => (w, Ok(())),
        }
    }

    /// The rows of a query with parameters.
    pub open spec fn query(self, w: World, sql: Text, params: Seq<Text>) -> (
        World,
        Outcome<Seq<Seq<JsonView>>>,
    ) {
        self.rows(w, substituted(sql, params))
    }

    /// The first row of a query, none where there is no row.
    pub open spec fn first_row(self, w: World, sql: Text, params: Seq<Text>) -> (
        World,
        Outcome<Option<Seq<JsonView>>>,
    ) {
        let (w, rows) = self.query(w, sql, params);
        match rows {
            Err(e) => (w, Err(e)),
            Ok(rows) => if rows.len() == 0 {
                (w, Ok(None))
            } else {
                (w, Ok(Some(rows[0])))
            },
        }
    }

    /// The hash of the latest commit.
    pub open spec fn head(self, w: World) -> (World, Outcome<Text>) {
        let (w, rows) = self.rows(w, "SELECT commit_hash FROM dolt_log LIMIT 1"@);
        match rows {
            Err(e) => (w, Err(e)),
            Ok(rows) => if rows.len() == 0 {
                (w, Err(failed("no commits in dolt repo"@)))
            } else {
                (w, column::<String>(rows[0], 0))
            },
        }
    }

    /// Committing all changes; the answer is the commit's hash.
    pub open spec fn commit(self, w: World, message: Text) -> (World, Outcome<Text>) {
        let add = seq!["add"@, "-A"@];
        let (w, added) = self.command(w, add, joined(add, " "@), Seq::empty());
        match added {
            Err(e) => (w, Err(e)),
            Ok(_) => {
                let commit = seq![
                    "commit"@,
                    "--allow-empty"@,
                    "-m"@,
                    message,
                    "--author"@,
                    "subcontext <subcontext@local>"@,
                ];
                let (w, done) = self.command(w, commit, joined(commit, " "@), Seq::empty());
                match done {
                    Err(e) => (w, Err(e)),
                    Ok(_) => self.head(w),
                }
            },
        }
    }
}

/// The texts of a row of arguments.
fn owned_args(args: &[&str]) -> (r: Vec<String>)
    ensures
        r.deep_view() == args.deep_view(),
{
    let mut out: Vec<String> = Vec::new();
    let mut i: usize = 0;
    while i < args.len()
        invariant
            i <= args@.len(),
            out@.len() == i,
            forall|j: int| 0 <= j < i ==> (#[trigger] out@[j])@ == args@[j]@,
        decreases args@.len() - i,
    {
        out.push(args[i].to_owned());
        i = i + 1;
    }
    assert(out.deep_view() =~= args.deep_view());
    out
}

impl DoltConnection {
    /// Open a connection to a Dolt repo at the given path.
    pub fn open<B: Backend>(backend: &mut B, env: &Env, repo_path: &str) -> (r: Result<
        Self,
        Failure,
    >)
        ensures
            (final(backend).world(), outcome(r)) == open_run(
                old(backend).world(),
                env@,
                repo_path@,
            ),
    {
        let dolt_bin = find_dolt_bin(backend, env)?;
        Ok(DoltConnection { repo_path: repo_path.to_owned(), dolt_bin })
    }

    /// Execute a SQL statement that returns no rows (INSERT, UPDATE, DELETE, CREATE TABLE, etc.).
    /// Parameters are substituted positionally: `?1`, `?2`, etc. are replaced with the
    /// provided string values. Values are SQL-escaped.
    pub fn execute<B: Backend>(&self, backend: &mut B, sql: &str, params: &[&str]) -> (r: Result<
        (),
        Failure,
    >)
        ensures
            (final(backend).world(), outcome(r)) == self@.execute(
                old(backend).world(),
                sql@,
                params.deep_view(),
            ),
    {
        let resolved = substitute_params(sql, params);
        self.execute_batch(backend, resolved.as_str())
    }

    /// Execute a batch of SQL statements (semicolon-separated, no params).
    pub fn execute_batch<B: Backend>(&self, backend: &mut B, sql: &str) -> (r: Result<(), Failure>)
        ensures
            (final(backend).world(), outcome(r)) == self@.execute_batch(
                old(backend).world(),
                sql@,
            ),
    {
        self.run_sql(backend, sql)?;
        Ok(())
    }

    /// Query a single row. Returns `None` if no rows match.
    /// The closure receives a `DoltRow` from which columns can be extracted.
    pub fn query_row<B: Backend, T, F: FnOnce(&DoltRow<'_>) -> Result<T, Failure>>(
        &self,
        backend: &mut B,
        sql: &str,
        params: &[&str],
        f: F,
    ) -> (r: Result<Option<T>, Failure>)
        requires
            forall|row: &DoltRow<'_>| #[trigger] call_requires(f, (row,)),
        ensures
            ({
                let (w, first) = self@.first_row(old(backend).world(), sql@, params.deep_view());
                &&& final(backend).world() == w
                &&& match first {
                    Err(e) => r is Err && r->Err_0@ == e,
                    Ok(None) => r is Ok && r->Ok_0 is None,
                    Ok(Some(columns)) => exists|row: &DoltRow<'_>, out: Result<T, Failure>|
                        row@ == columns && #[trigger] call_ensures(f, (row,), out) && r
                            == row_result(out),
                }
            }),
    {
        let rows = self.query_rows(backend, sql, params)?;
        assert(row_trees(rows@).len() == rows@.len());
        if rows.len() == 0 {
            return Ok(None);
        }
        assert(row_trees(rows@)[0] == trees(rows@[0]@));
        let row = DoltRow { columns: rows[0].as_slice() };
        let out = f(&row);
        assert(call_ensures(f, (&row,), out));
        match out {
            Ok(value) => Ok(Some(value)),
            Err(e) => Err(e),
        }
    }

    /// Query multiple rows. Returns a Vec built by applying the closure to each row,
    /// or the first failure among them.
    pub fn query_map<B: Backend, T, F: Fn(&DoltRow<'_>) -> Result<T, Failure>>(
        &self,
        backend: &mut B,
        sql: &str,
        params: &[&str],
        f: F,
    ) -> (r: Result<Vec<T>, Failure>)
        requires
            forall|row: &DoltRow<'_>| #[trigger] call_requires(f, (row,)),
        ensures
            ({
                let (w, rows) = self@.query(old(backend).world(), sql@, params.deep_view());
                &&& final(backend).world() == w
                &&& match rows {
                    Err(e) => r is Err && r->Err_0@ == e,
                    Ok(rows) => mapped(f, rows, r),
                }
            }),
    {
        let rows = self.query_rows(backend, sql, params)?;
        let ghost all = row_trees(rows@);
        assert(all.len() == rows@.len());
        let mut results: Vec<T> = Vec::new();
        let mut i: usize = 0;
        while i < rows.len()
            invariant
                i <= rows@.len(),
                all == row_trees(rows@),
                all.len() == rows@.len(),
                self@.query(old(backend).world(), sql@, params.deep_view()) == (
                    backend.world(),
                    Ok::<Seq<Seq<JsonView>>, Seq<Text>>(all),
                ),
                results@.len() == i,
                forall|row: &DoltRow<'_>| #[trigger] call_requires(f, (row,)),
                forall|j: int| 0 <= j < i ==> made_from(f, all[j], #[trigger] results@[j]),
                forall|j: int| 0 <= j < i ==> #[trigger] works_on(f, all[j]),
            decreases rows@.len() - i,
        {
            assert(all[i as int] == trees(rows@[i as int]@));
            let row = DoltRow { columns: rows[i].as_slice() };
            assert(row@ == all[i as int]);
            match f(&row) {
                Ok(value) => {
                    assert(call_ensures(f, (&row,), Ok::<T, Failure>(value)));
                    assert(made_from(f, all[i as int], value));
                    assert(works_on(f, all[i as int]));
                    results.push(value);
                },
                Err(e) => {
                    assert(call_ensures(f, (&row,), Err::<T, Failure>(e)));
                    assert(fails_on(f, all[i as int], e));
                    assert(mapped(f, all, Err::<Vec<T>, Failure>(e)));
                    return Err(e);
                },
            }
            i = i + 1;
        }
        Ok(results)
    }

    /// Create a Dolt commit with the given message. Returns the commit hash.
    pub fn commit<B: Backend>(&self, backend: &mut B, message: &str) -> (r: Result<String, Failure>)
        ensures
            (final(backend).world(), outcome(r)) == self@.commit(old(backend).world(), message@),
    {
        // Stage all changes
        self.run_dolt(backend, &argv2("add", "-A"))?;

        // Commit (--allow-empty handles the "nothing to commit" case gracefully
        // by creating a commit even when there are no changes, which is fine
        // for our use case since we just want a commit hash to track).
        self.run_dolt(
            backend,
            &argv6(
                "commit",
                "--allow-empty",
                "-m",
                message,
                "--author",
                "subcontext <subcontext@local>",
            ),
        )?;
        self.head_commit(backend)
    }

    /// Get the current HEAD commit hash.
    pub fn head_commit<B: Backend>(&self, backend: &mut B) -> (r: Result<String, Failure>)
        ensures
            (final(backend).world(), outcome(r)) == self@.head(old(backend).world()),
    {
        // Use dolt log to get the latest commit hash
        let rows = self.run_sql_rows(backend, "SELECT commit_hash FROM dolt_log LIMIT 1")?;
        assert(row_trees(rows@).len() == rows@.len());
        if rows.len() == 0 {
            return Err(fail("no commits in dolt repo"));
        }
        assert(row_trees(rows@)[0] == trees(rows@[0]@));
        let row = DoltRow { columns: rows[0].as_slice() };
        row.get::<String>(0)
    }

    /// The rows of a query.
    pub fn query_rows<B: Backend>(&self, backend: &mut B, sql: &str, params: &[&str]) -> (r: Result<
        Vec<Vec<Value>>,
        Failure,
    >)
        ensures
            (final(backend).world(), rows_outcome(r)) == self@.query(
                old(backend).world(),
                sql@,
                params.deep_view(),
            ),
    {
        let resolved = substitute_params(sql, params);
        self.run_sql_rows(backend, resolved.as_str())
    }

    // ─── Internal helpers ────────────────────────────────────────────

    /// Run a command of `dolt` and return stdout.
    fn run_command<B: Backend>(
        &self,
        backend: &mut B,
        args: &[&str],
        what: &str,
        tail: &str,
    ) -> (r: Result<String, Failure>)
        ensures
            (final(backend).world(), outcome(r)) == self@.command(
                old(backend).world(),
                args.deep_view(),
                what@,
                tail@,
            ),
    {
        let message = cat4("failed to run dolt ", what, " in ", self.repo_path.as_str());
        let output = context(
            backend.capture(self.dolt_bin.as_str(), args, Some(self.repo_path.as_str())),
            message.as_str(),
        )?;
        if !output.success {
            let stderr = trim(output.stderr.as_str());
            let message = cat5("dolt ", what, " failed: ", stderr.as_str(), tail);
            return Err(fail(message.as_str()));
        }
        Ok(output.stdout)
    }

    /// Run `dolt sql -q <sql>` and return stdout.
    fn run_sql<B: Backend>(&self, backend: &mut B, sql: &str) -> (r: Result<String, Failure>)
        ensures
            (final(backend).world(), outcome(r)) == self@.sql(old(backend).world(), sql@),
    {
        let tail = cat("\nSQL: ", sql);
        self.run_command(backend, &argv3("sql", "-q", sql), "sql", tail.as_str())
    }

    /// Run `dolt sql -r json -q <sql>` and return the rows.
    fn run_sql_rows<B: Backend>(&self, backend: &mut B, sql: &str) -> (r: Result<
        Vec<Vec<Value>>,
        Failure,
    >)
        ensures
            (final(backend).world(), rows_outcome(r)) == self@.rows(old(backend).world(), sql@),
    {
        let tail = cat("\nSQL: ", sql);
        let output = self.run_command(
            backend,
            &argv5("sql", "-r", "json", "-q", sql),
            "sql",
            tail.as_str(),
        )?;
        parse_dolt_json_rows(output.as_str())
    }

    /// Run an arbitrary dolt command and return stdout.
    fn run_dolt<B: Backend>(&self, backend: &mut B, args: &[&str]) -> (r: Result<String, Failure>)
        ensures
            (final(backend).world(), outcome(r)) == self@.command(
                old(backend).world(),
                args.deep_view(),
                joined(args.deep_view(), " "@),
                Seq::empty(),
            ),
    {
        let what = crate::text::join(&owned_args(args), " ");
        let tail = String::new();
        assert(tail@ =~= Seq::<char>::empty());
        self.run_command(backend, args, what.as_str(), tail.as_str())
    }
}

/// The result for the row of a query.
pub open spec fn row_result<T>(out: Result<T, Failure>) -> Result<Option<T>, Failure> {
    match out {
        Ok(value) => Ok(Some(value)),
        Err(e) => Err(e),
    }
}

/// Does the closure make the value from a row with these columns?
pub open spec fn made_from<T, F: Fn(&DoltRow<'_>) -> Result<T, Failure>>(
    f: F,
    columns: Seq<JsonView>,
    value: T,
) -> bool {
    exists|row: &DoltRow<'_>|
        row@ == columns && #[trigger] call_ensures(f, (row,), Ok::<T, Failure>(value))
}

/// Does the closure make a value from a row with these columns?
pub open spec fn works_on<T, F: Fn(&DoltRow<'_>) -> Result<T, Failure>>(
    f: F,
    columns: Seq<JsonView>,
) -> bool {
    exists|value: T| #[trigger] made_from(f, columns, value)
}

/// Does the closure fail on a row with these columns?
pub open spec fn fails_on<T, F: Fn(&DoltRow<'_>) -> Result<T, Failure>>(
    f: F,
    columns: Seq<JsonView>,
    e: Failure,
) -> bool {
    exists|row: &DoltRow<'_>|
        row@ == columns && #[trigger] call_ensures(f, (row,), Err::<T, Failure>(e))
}

/// Is `r` what the closure makes of the rows: a value from each, or its failure
/// on the first on which it fails?
pub open spec fn mapped<T, F: Fn(&DoltRow<'_>) -> Result<T, Failure>>(
    f: F,
    rows: Seq<Seq<JsonView>>,
    r: Result<Vec<T>, Failure>,
) -> bool {
    match r {
        Ok(values) => values@.len() == rows.len() && forall|i: int|
            0 <= i < rows.len() ==> made_from(f, rows[i], #[trigger] values@[i]),
        Err(e) => exists|i: int|
            #![trigger rows[i]]
            0 <= i < rows.len() && fails_on::<T, F>(f, rows[i], e) && forall|j: int|
                0 <= j < i ==> works_on::<T, F>(f, #[trigger] rows[j]),
    }
}

// ─── Dolt commit tracking in state branch ────────────────────────────

/// Where the state branch keeps the commit.
pub open spec fn head_path(state: Text) -> Text {
    path_join(state, "dolt_head"@)
}

/// Write the current dolt commit hash to the state branch.
/// This enables future branching: each git branch can track its own dolt commit.
pub fn save_dolt_head<B: Backend>(backend: &mut B, state: &str, dolt_commit: &str) -> (r: Result<
    (),
    Failure,
>)
    ensures
        (final(backend).world(), outcome(r)) == old(backend).world().write(
            head_path(state@),
            dolt_commit@,
        ),
{
    let head_file = join_path(state, "dolt_head");
    write_text(backend, head_file.as_str(), dolt_commit)
}

/// The commit that the file tells: none where it holds white space alone.
pub open spec fn head_told(content: Text) -> Option<Text> {
    if trimmed(content).len() == 0 {
        None
    } else {
        Some(trimmed(content))
    }
}

/// Reading the commit from the state branch.
pub open spec fn read_head_run(w: World, state: Text) -> (World, Outcome<Option<Text>>) {
    let (w, there) = w.is_file(head_path(state));
    if !there {
        (w, Ok(None))
    } else {
        let (w, content) = w.read(head_path(state));
        match content {
            Err(e) => (w, Err(e)),
            Ok(content) => (w, Ok(head_told(content))),
        }
    }
}

/// Read the current dolt commit hash from the state branch.
pub fn read_dolt_head<B: Backend>(backend: &mut B, state: &str) -> (r: Result<
    Option<String>,
    Failure,
>)
    ensures
        (final(backend).world(), outcome(r)) == read_head_run(old(backend).world(), state@),
{
    let head_file = join_path(state, "dolt_head");
    if !backend.is_file(head_file.as_str()) {
        return Ok(None);
    }
    let content = backend.read_to_string(head_file.as_str())?;
    let commit = trim(content.as_str());
    if commit.as_str().is_empty() {
        return Ok(None);
    }
    Ok(Some(commit))
}

// ─── Schema creation ─────────────────────────────────────────────────

pub const TASKS_TABLE: &'static str = "CREATE TABLE IF NOT EXISTS tasks (
             task_uuid        VARCHAR(36) PRIMARY KEY,
             task_name        VARCHAR(255) NOT NULL,
             task_status      VARCHAR(50) NOT NULL,
             task_kind        VARCHAR(50) NOT NULL,
             task_description TEXT DEFAULT NULL,
             project_uuid     VARCHAR(36) NOT NULL,
             task_deadline    VARCHAR(50) DEFAULT NULL,
             task_importance  DOUBLE NOT NULL DEFAULT 0.0,
             parent_task_uuid VARCHAR(36) DEFAULT NULL,
             board_uuid       VARCHAR(36) DEFAULT NULL,
             subtasks         TEXT NOT NULL DEFAULT '{}'
         );";

pub const TASK_NAMES_TABLE: &'static str = "CREATE TABLE IF NOT EXISTS task_names (
             branch_name   VARCHAR(255) NOT NULL,
             task_name     VARCHAR(255) NOT NULL,
             task_uuid     VARCHAR(36) NOT NULL UNIQUE,
             INDEX idx_task_names_lookup (branch_name, task_name)
         );";

pub const OBJECTS_TABLE: &'static str = "CREATE TABLE IF NOT EXISTS objects (
             uuid                  VARCHAR(36) PRIMARY KEY,
             type                  VARCHAR(50) NOT NULL,
             current_commit        VARCHAR(255) NOT NULL,
             board_uuid            VARCHAR(36) DEFAULT NULL,
             source_context_uuid   VARCHAR(36) DEFAULT NULL,
             source_object_uuid    VARCHAR(36) DEFAULT NULL,
             source_context_commit VARCHAR(255) DEFAULT NULL
         );";

pub const BRANCH_TASKS_TABLE: &'static str = "CREATE TABLE IF NOT EXISTS branch_tasks (
             scope_branch  VARCHAR(255) PRIMARY KEY,
             task_uuid     VARCHAR(36) NOT NULL
         );";

pub const CONFIG_TABLE: &'static str = "CREATE TABLE IF NOT EXISTS config (
             key_name   VARCHAR(255) PRIMARY KEY,
             value      TEXT NOT NULL
         );";

pub const PARENTS_TABLE: &'static str = "CREATE TABLE IF NOT EXISTS parents (
             child_uuid  VARCHAR(36) PRIMARY KEY,
             parent_uuid VARCHAR(36) NOT NULL
         );";

/// Running statements one after the other, from the `i`-th on, up to the first
/// that fails.
pub open spec fn batches_run(w: World, c: DoltView, statements: Seq<Text>, i: nat) -> (
    World,
    Outcome<()>,
)
    decreases statements.len() - i,
{
    if i >= statements.len() {
        (w, Ok(()))
    } else {
        let (w, done) = c.execute_batch(w, statements[i as int]);
        match done {
            Err(e) => (w, Err(e)),
            Ok(_) => batches_run(w, c, statements, i + 1),
        }
    }
}

/// The statements of the tasks schema.
pub open spec fn tasks_schema() -> Seq<Text> {
    seq![TASKS_TABLE@, TASK_NAMES_TABLE@, OBJECTS_TABLE@, BRANCH_TASKS_TABLE@]
}

/// The statements of the extra global schema.
pub open spec fn global_schema() -> Seq<Text> {
    seq![CONFIG_TABLE@, PARENTS_TABLE@]
}

/// Create the tasks database schema in a Dolt repo.
pub fn create_dolt_schema<B: Backend>(backend: &mut B, conn: &DoltConnection) -> (r: Result<
    (),
    Failure,
>)
    ensures
        (final(backend).world(), outcome(r)) == batches_run(
            old(backend).world(),
            conn@,
            tasks_schema(),
            0,
        ),
{
    proof {
        reveal_with_fuel(batches_run, 5);
    }
    // Dolt uses MySQL syntax. Execute each statement separately since
    // dolt sql doesn't always handle multi-statement batches well.
    conn.execute_batch(backend, TASKS_TABLE)?;
    conn.execute_batch(backend, TASK_NAMES_TABLE)?;
    conn.execute_batch(backend, OBJECTS_TABLE)?;
    conn.execute_batch(backend, BRANCH_TASKS_TABLE)
}

/// Create the extra global schema tables (config, parents) in a Dolt repo.
pub fn create_dolt_global_schema<B: Backend>(backend: &mut B, conn: &DoltConnection) -> (r: Result<
    (),
    Failure,
>)
    ensures
        (final(backend).world(), outcome(r)) == batches_run(
            old(backend).world(),
            conn@,
            global_schema(),
            0,
        ),
{
    proof {
        reveal_with_fuel(batches_run, 3);
    }
    conn.execute_batch(backend, CONFIG_TABLE)?;
    conn.execute_batch(backend, PARENTS_TABLE)
}

// ─── Laws ────────────────────────────────────────────────────────────

/// The inside of a literal of SQL, read up to its closing quote: what it stands
/// for, and what follows. A doubled quote stands for one.
pub open spec fn literal_inside(s: Text) -> Option<(Text, Text)>
    decreases s.len(),
{
    if s.len() == 0 {
        None
    } else if s[0] != '\'' {
        match literal_inside(s.skip(1)) {
            None => None,
            Some((value, rest)) => Some((seq![s[0]] + value, rest)),
        }
    } else if s.len() > 1 && s[1] == '\'' {
        match literal_inside(s.skip(2)) {
            None => None,
            Some((value, rest)) => Some((seq!['\''] + value, rest)),
        }
    } else {
        Some((Seq::empty(), s.skip(1)))
    }
}

proof fn lemma_literal_inside(value: Text, rest: Text)
    requires
        rest.len() > 0 ==> rest[0] != '\'',
    ensures
        literal_inside(replaced(value, "'"@, "''"@) + "'"@ + rest) == Some((value, rest)),
    decreases value.len(),
{
    reveal_strlit("'");
    reveal_strlit("''");
    let whole = replaced(value, "'"@, "''"@) + "'"@ + rest;
    if value.len() == 0 {
        assert(whole =~= "'"@ + rest);
        assert(whole.skip(1) =~= rest);
        assert(value =~= Seq::empty());
    } else {
        let tail = value.skip(1);
        let inner = replaced(tail, "'"@, "''"@) + "'"@ + rest;
        lemma_literal_inside(tail, rest);
        if value[0] == '\'' {
            assert("'"@ =~= value.subrange(0, 1));
            assert("'"@.is_prefix_of(value));
            assert(whole =~= "''"@ + inner);
            assert(whole.skip(2) =~= inner);
            assert(seq!['\''] + tail =~= value);
        } else {
            assert(!"'"@.is_prefix_of(value)) by {
                assert("'"@[0] == '\'');
            }
            assert(whole =~= seq![value[0]] + inner);
            assert(whole.skip(1) =~= inner);
            assert(seq![value[0]] + tail =~= value);
        }
    }
}

/// An escaped value stays inside its quotes: read as a literal in which a
/// doubled quote stands for one, it ends where it was closed and stands for the
/// value, whatever that holds.
pub proof fn escaped_values_stay_inside(value: Text, rest: Text)
    requires
        rest.len() > 0 ==> rest[0] != '\'',
    ensures
        ({
            let text = sql_literal(value) + rest;
            text.len() > 0 && text[0] == '\'' && literal_inside(text.skip(1)) == Some(
                (value, rest),
            )
        }),
{
    reveal_strlit("'");
    let text = sql_literal(value) + rest;
    lemma_literal_inside(value, rest);
    assert(text.skip(1) =~= replaced(value, "'"@, "''"@) + "'"@ + rest);
}

/// A commit that was saved is the one that is read.
pub proof fn saved_head_reads_back(commit: Text)
    requires
        trimmed(commit) == commit,
        commit.len() > 0,
    ensures
        head_told(commit) == Some(commit),
{
}

} // verus!
