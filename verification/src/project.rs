//! The configuration of a subcontext: its UUID, its kind and its version.

use vstd::prelude::*;

use crate::backend::{write_text, Backend};
use crate::failure::{context, contextual, fail, failed, outcome, Failure, Outcome};
use crate::git::{config_dir, config_path};
use crate::overlay::{ensure_parent, ensure_parent_run};
use crate::paths::{join_path, path_join};
use crate::text::{
    all_plain, cat5, is_plain, is_space, lemma_lines, lemma_plain_as_read, lines, lines_of,
    strip_prefix, trim, trimmed, with_newlines, without_prefix, Text,
};
use crate::world::World;

verus! {

pub const CONFIG_FILE: &'static str = "subcontext.yaml";

pub const SUBCONTEXT_KIND: &'static str = "project";

pub const SYSTEM_KIND: &'static str = "system";

pub const USER_KIND: &'static str = "user";

pub const SUBCONTEXT_VERSION: &'static str = "0.0.0";

// ─── UUIDs ───────────────────────────────────────────────────────────

/// Is the character a digit of a hexadecimal number, in lower case?
pub open spec fn is_hex(c: char) -> bool {
    '0' <= c <= '9' || 'a' <= c <= 'f'
}

/// Is the text a random UUID: hexadecimal digits in groups of 8, 4, 4, 4 and 12,
/// with hyphens between them, with its version and its variant in their places?
pub open spec fn is_uuid(s: Text) -> bool {
    &&& s.len() == 36
    &&& forall|i: int|
        0 <= i < 36 ==> if i == 8 || i == 13 || i == 18 || i == 23 {
            #[trigger] s[i] == '-'
        } else {
            is_hex(s[i])
        }
    &&& s[14] == '4'
    &&& s[19] == '8' || s[19] == '9' || s[19] == 'a' || s[19] == 'b'
}

/// `Uuid::new_v4` and its `to_string`: a UUID of version 4, chosen at random. No
/// more is said of which it is.
#[verifier::external_body]
pub(crate) fn fresh_uuid() -> (r: String)
    ensures
        is_uuid(r@),
{
    uuid::Uuid::new_v4().to_string()
}

// ─── The configuration file ──────────────────────────────────────────

/// Where the configuration is.
pub open spec fn config_file_path(dir: Text) -> Text {
    path_join(dir, CONFIG_FILE@)
}

/// The configuration of a new subcontext.
pub open spec fn config_text(uuid: Text, kind: Text) -> Text {
    "project_uuid: "@ + uuid + "\nkind: "@ + kind + "\nversion: 0.0.0\n"@
}

/// The value behind `label`: that of the first of the lines that begins with it
/// and holds anything but white space behind it.
pub open spec fn value_in(all: Seq<Text>, label: Text) -> Option<Text>
    decreases all.len(),
{
    if all.len() == 0 {
        None
    } else {
        match without_prefix(all[0], label) {
            Some(rest) if trimmed(rest).len() > 0 => Some(trimmed(rest)),
            _ => value_in(all.skip(1), label),
        }
    }
}

/// The value behind `label` in a configuration.
pub open spec fn value_of(content: Text, label: Text) -> Option<Text> {
    value_in(lines_of(content), label)
}

/// The value behind `label` in a configuration.
pub fn config_value(content: &str, label: &str) -> (r: Option<String>)
    ensures
        r.deep_view() == value_of(content@, label@),
{
    let all = lines(content);
    let ghost views = all.deep_view();
    let mut i: usize = 0;
    assert(views.skip(0) =~= views);
    while i < all.len()
        invariant
            i <= all@.len(),
            views == all.deep_view(),
            views == lines_of(content@),
            value_in(views, label@) == value_in(views.skip(i as int), label@),
        decreases all@.len() - i,
    {
        assert(views.skip(i as int)[0] == all@[i as int]@);
        assert(views.skip(i as int).skip(1) =~= views.skip(i + 1));
        if let Some(val) = strip_prefix(all[i].as_str(), label) {
            let v = trim(val.as_str());
            if !v.as_str().is_empty() {
                return Some(v);
            }
        }
        i = i + 1;
    }
    None
}

/// Reading the value behind `label` of a subcontext.
pub open spec fn read_value_run(w: World, dir: Text, label: Text, missing: Text) -> (
    World,
    Outcome<Text>,
) {
    let (w, content) = w.read(config_file_path(dir));
    match contextual(content, "failed to read subcontext.yaml"@) {
        Err(e) => (w, Err(e)),
        Ok(content) => match value_of(content, label) {
            Some(value) => (w, Ok(value)),
            None => (w, Err(failed(missing))),
        },
    }
}

/// Read the value behind `label` of a subcontext.
fn read_value<B: Backend>(backend: &mut B, config_dir: &str, label: &str, missing: &str) -> (r:
    Result<String, Failure>)
    ensures
        (final(backend).world(), outcome(r)) == read_value_run(
            old(backend).world(),
            config_dir@,
            label@,
            missing@,
        ),
{
    let path = join_path(config_dir, CONFIG_FILE);
    let content = context(
        backend.read_to_string(path.as_str()),
        "failed to read subcontext.yaml",
    )?;
    match config_value(content.as_str(), label) {
        Some(value) => Ok(value),
        None => Err(fail(missing)),
    }
}

/// Reading the UUID of a subcontext.
pub open spec fn read_uuid_run(w: World, dir: Text) -> (World, Outcome<Text>) {
    read_value_run(w, dir, "project_uuid:"@, "project_uuid not found in subcontext.yaml"@)
}

/// Reading the kind of a subcontext.
pub open spec fn read_kind_run(w: World, dir: Text) -> (World, Outcome<Text>) {
    read_value_run(w, dir, "kind:"@, "kind not found in subcontext.yaml"@)
}

/// Read the project UUID from the subcontext.yaml in the given config directory.
pub fn read_project_uuid_at<B: Backend>(backend: &mut B, config_dir: &str) -> (r: Result<
    String,
    Failure,
>)
    ensures
        (final(backend).world(), outcome(r)) == read_uuid_run(old(backend).world(), config_dir@),
{
    read_value(
        backend,
        config_dir,
        "project_uuid:",
        "project_uuid not found in subcontext.yaml",
    )
}

/// Read the project UUID from the config branch's subcontext.yaml.
pub fn read_project_uuid<B: Backend>(backend: &mut B, root: &str) -> (r: Result<String, Failure>)
    ensures
        (final(backend).world(), outcome(r)) == read_uuid_run(
            old(backend).world(),
            config_path(root@),
        ),
{
    let dir = config_dir(root);
    read_project_uuid_at(backend, dir.as_str())
}

/// Read the kind field from a subcontext.yaml in the given config directory.
pub fn read_kind_at<B: Backend>(backend: &mut B, config_dir: &str) -> (r: Result<String, Failure>)
    ensures
        (final(backend).world(), outcome(r)) == read_kind_run(old(backend).world(), config_dir@),
{
    read_value(backend, config_dir, "kind:", "kind not found in subcontext.yaml")
}

/// Read the kind field from the local subcontext's config.
pub fn read_kind<B: Backend>(backend: &mut B, root: &str) -> (r: Result<String, Failure>)
    ensures
        (final(backend).world(), outcome(r)) == read_kind_run(
            old(backend).world(),
            config_path(root@),
        ),
{
    let dir = config_dir(root);
    read_kind_at(backend, dir.as_str())
}

/// Having a configuration in a directory: one that is there stays, and its UUID
/// is read; else one with the UUID `fresh` is written.
pub open spec fn ensure_config_run(w: World, dir: Text, kind: Text, fresh: Text) -> (
    World,
    Outcome<Text>,
) {
    let path = config_file_path(dir);
    let (w, there) = w.path_exists(path);
    if there {
        read_uuid_run(w, dir)
    } else {
        let (w, made) = ensure_parent_run(w, path);
        match made {
            Err(e) => (w, Err(e)),
            Ok(_) => {
                let (w, written) = w.write(path, config_text(fresh, kind));
                match contextual(written, "failed to write subcontext.yaml"@) {
                    Err(e) => (w, Err(e)),
                    Ok(_) => (w, Ok(fresh)),
                }
            },
        }
    }
}

/// Have a configuration in a directory; a new one gets the UUID `fresh`.
pub fn ensure_config_with<B: Backend>(
    backend: &mut B,
    config_dir: &str,
    kind: &str,
    fresh: &str,
) -> (r: Result<String, Failure>)
    ensures
        (final(backend).world(), outcome(r)) == ensure_config_run(
            old(backend).world(),
            config_dir@,
            kind@,
            fresh@,
        ),
{
    let path = join_path(config_dir, CONFIG_FILE);
    if backend.path_exists(path.as_str()) {
        return read_project_uuid_at(backend, config_dir);
    }
    let content = cat5("project_uuid: ", fresh, "\nkind: ", kind, "\nversion: 0.0.0\n");
    ensure_parent(backend, path.as_str())?;
    context(
        write_text(backend, path.as_str(), content.as_str()),
        "failed to write subcontext.yaml",
    )?;
    Ok(fresh.to_owned())
}

/// Write an initial subcontext.yaml into `config_dir` with the given kind.
/// Returns the UUID (existing or newly generated).
pub fn ensure_config_in<B: Backend>(backend: &mut B, config_dir: &str, kind: &str) -> (r: Result<
    String,
    Failure,
>)
    ensures
        exists|fresh: Text|
            is_uuid(fresh) && (final(backend).world(), outcome(r))
                == #[trigger] ensure_config_run(old(backend).world(), config_dir@, kind@, fresh),
{
    let fresh = fresh_uuid();
    ensure_config_with(backend, config_dir, kind, fresh.as_str())
}

/// Write the initial project config on the config branch, if not present.
/// Returns the project UUID (existing or newly generated).
pub fn ensure_project_config<B: Backend>(backend: &mut B, root: &str) -> (r: Result<
    String,
    Failure,
>)
    ensures
        exists|fresh: Text|
            is_uuid(fresh) && (final(backend).world(), outcome(r))
                == #[trigger] ensure_config_run(
                old(backend).world(),
                config_path(root@),
                "project"@,
                fresh,
            ),
{
    let dir = config_dir(root);
    ensure_config_in(backend, dir.as_str(), SUBCONTEXT_KIND)
}

// ─── Laws ────────────────────────────────────────────────────────────

/// A text that a line of the configuration can hold: one line, not empty, with
/// no white space around it.
pub open spec fn is_bare(s: Text) -> bool {
    s.len() > 0 && is_plain(s) && trimmed(s) == s
}

proof fn lemma_value_trimmed(s: Text)
    requires
        is_bare(s),
    ensures
        trimmed(" "@ + s) == s,
{
    reveal_strlit(" ");
    let all = " "@ + s;
    assert(all.skip(1) =~= s);
    assert(is_space(all[0]));
}

/// A random UUID can be a value of the configuration.
pub proof fn uuid_is_bare(s: Text)
    requires
        is_uuid(s),
    ensures
        is_bare(s),
{
    assert forall|i: int| 0 <= i < s.len() implies !is_space(#[trigger] s[i]) && s[i] != '\n'
        && s[i] != '\r' by {
        assert(s[i] == '-' || is_hex(s[i]));
    }
    assert(!is_space(s[0]));
    assert(!is_space(s[35]));
}

/// A new configuration tells the UUID and the kind that it was written with.
pub proof fn config_reads_back(uuid: Text, kind: Text)
    requires
        is_bare(uuid),
        is_bare(kind),
    ensures
        value_of(config_text(uuid, kind), "project_uuid:"@) == Some(uuid),
        value_of(config_text(uuid, kind), "kind:"@) == Some(kind),
{
    let first = "project_uuid: "@ + uuid;
    let second = "kind: "@ + kind;
    let third = "version: 0.0.0"@;
    let all = seq![first, second, third];
    lemma_config_lines(uuid, kind);
    lemma_labels(uuid, kind);
    lemma_value_trimmed(uuid);
    lemma_value_trimmed(kind);
    assert(all.skip(1)[0] == second);
    reveal_with_fuel(value_in, 2);
}

proof fn lemma_labels(uuid: Text, kind: Text)
    ensures
        without_prefix("project_uuid: "@ + uuid, "project_uuid:"@) == Some(" "@ + uuid),
        without_prefix("project_uuid: "@ + uuid, "kind:"@) is None,
        without_prefix("kind: "@ + kind, "kind:"@) == Some(" "@ + kind),
{
    reveal_strlit("project_uuid: ");
    reveal_strlit("project_uuid:");
    reveal_strlit("kind: ");
    reveal_strlit("kind:");
    reveal_strlit(" ");
    let first = "project_uuid: "@ + uuid;
    let second = "kind: "@ + kind;
    assert(first.subrange(0, 13) =~= "project_uuid:"@);
    assert(first.skip(13) =~= " "@ + uuid);
    assert(second.subrange(0, 5) =~= "kind:"@);
    assert(second.skip(5) =~= " "@ + kind);
    assert(first[0] == 'p');
    assert("kind:"@[0] == 'k');
}

proof fn lemma_config_lines(uuid: Text, kind: Text)
    requires
        is_plain(uuid),
        is_plain(kind),
    ensures
        lines_of(config_text(uuid, kind)) == seq![
            "project_uuid: "@ + uuid,
            "kind: "@ + kind,
            "version: 0.0.0"@,
        ],
{
    let first = "project_uuid: "@ + uuid;
    let second = "kind: "@ + kind;
    let third = "version: 0.0.0"@;
    let all = seq![first, second, third];
    assert(all_plain(all)) by {
        reveal_strlit("project_uuid: ");
        reveal_strlit("kind: ");
        reveal_strlit("version: 0.0.0");
        assert(is_plain(first));
        assert(is_plain(second));
        assert(is_plain(third));
    }
    assert(with_newlines(all) == config_text(uuid, kind)) by {
        let two = seq![first, second];
        let one = seq![first];
        assert(all.drop_last() =~= two);
        assert(two.drop_last() =~= one);
        assert(one.drop_last() =~= Seq::empty());
        assert(with_newlines(one.drop_last()) =~= Seq::<char>::empty());
        assert(with_newlines(one) =~= first + "\n"@);
        assert("\nkind: "@ =~= "\n"@ + "kind: "@) by {
            reveal_strlit("\nkind: ");
            reveal_strlit("\n");
            reveal_strlit("kind: ");
        }
        assert("\nversion: 0.0.0\n"@ =~= "\n"@ + third + "\n"@) by {
            reveal_strlit("\nversion: 0.0.0\n");
            reveal_strlit("\n");
            reveal_strlit("version: 0.0.0");
        }
        assert(two.last() == second);
        assert(with_newlines(two) =~= first + "\n"@ + second + "\n"@);
        assert(all.last() == third);
        assert(with_newlines(all) =~= config_text(uuid, kind));
    }
    lemma_lines(all);
    lemma_plain_as_read(all);
}

/// A configuration that is there is left alone: nothing is written, and its own
/// UUID is given.
pub proof fn existing_config_stays(w: World, dir: Text, kind: Text, fresh: Text)
    requires
        w.path_exists(config_file_path(dir)).1,
    ensures
        ensure_config_run(w, dir, kind, fresh) == read_uuid_run(
            w.path_exists(config_file_path(dir)).0,
            dir,
        ),
{
}

} // verus!
