//! The commands of the program that work on the repository around a directory.

use vstd::prelude::*;

use crate::backend::Backend;
use crate::environment::{Env, EnvView};
use crate::failure::{fail, failed, outcome, Failure, Outcome};
use crate::git::{
    config_path, find_checkout_context, find_checkout_run, find_main_git_root, find_main_run,
    Checkout, CheckoutContext,
};
use crate::global::{
    base_of, exists_run, get_managed_kind, get_parent, get_parent_run, global_exists,
    global_scope_run, global_task_scope, kind_run, repo_in, root_of,
};
use crate::hook;
use crate::lineage::{children_run, get_children, kind_or_unknown};
use crate::overlay;
use crate::paths::{
    is_absolute, is_rooted, join_path, normalize_path, parts, path_join, relative, relative_to,
    walked,
};
use crate::project::{read_project_uuid, read_uuid_run};
use crate::submodule;
use crate::text::{cat, cat3, cat4, joined, Text};
use crate::tree::{below_within, files_among, files_of, find_below, walk_is_one, Item, ItemView};
use crate::world::World;

verus! {

// ─── Paths ───────────────────────────────────────────────────────────

/// Resolving a path; where that fails, it stands for itself.
pub open spec fn canonical_run(w: World, path: Text) -> (World, Text) {
    let (w, resolved) = w.canonicalize(path);
    match resolved {
        Ok(resolved) => (w, resolved),
        Err(_) => (w, path),
    }
}

/// Resolve a path; where that fails, it stands for itself.
fn canonical<B: Backend>(backend: &mut B, path: &str) -> (r: String)
    ensures
        (final(backend).world(), r@) == canonical_run(old(backend).world(), path@),
{
    match backend.canonicalize(path) {
        Ok(resolved) => resolved,
        Err(_) => path.to_owned(),
    }
}

/// Resolving a path that may not exist yet to be relative to the root.
pub open spec fn resolve_new_run(w: World, cwd: Text, root: Text, path: Text) -> (
    World,
    Outcome<Text>,
) {
    let (w, top) = canonical_run(w, root);
    let (w, abs) = if is_rooted(path) {
        (w, path)
    } else {
        let (w, here) = canonical_run(w, cwd);
        (w, path_join(here, path))
    };
    let (w, resolved) = w.canonicalize(abs);
    let abs = match resolved {
        Ok(resolved) => resolved,
        Err(_) => walked(parts(abs)),
    };
    match relative_to(abs, top) {
        Some(rel) => (w, Ok(rel)),
        None => (w, Err(failed("path "@ + path + " is outside the repository root"@))),
    }
}

/// Resolve a path that may not exist yet (e.g., submodule destination) to be
/// relative to root.
pub fn resolve_new_path<B: Backend>(
    backend: &mut B,
    cwd: &str,
    root: &str,
    path: &str,
) -> (r: Result<String, Failure>)
    ensures
        (final(backend).world(), outcome(r)) == resolve_new_run(
            old(backend).world(),
            cwd@,
            root@,
            path@,
        ),
{
    let top = canonical(backend, root);

    let abs: String = if is_absolute(path) {
        path.to_owned()
    } else {
        let here = canonical(backend, cwd);
        join_path(here.as_str(), path)
    };

    // Try to resolve (which takes away `..`), fall back to manual normalization
    let abs: String = match backend.canonicalize(abs.as_str()) {
        Ok(resolved) => resolved,
        Err(_) => normalize_path(abs.as_str()),
    };

    match relative(abs.as_str(), top.as_str()) {
        Some(rel) => Ok(rel),
        None => {
            let message = cat3("path ", path, " is outside the repository root");
            Err(fail(message.as_str()))
        },
    }
}

/// Resolving the path of a file to be relative to the root.
pub open spec fn resolve_file_run(w: World, cwd: Text, root: Text, file: Text) -> (
    World,
    Outcome<Text>,
) {
    let (w, abs) = canonical_run(w, path_join(cwd, file));
    let (w, top) = canonical_run(w, root);
    match relative_to(abs, top) {
        Some(rel) => (w, Ok(rel)),
        None => (w, Err(failed("file "@ + file + " is outside the repository root"@))),
    }
}

/// Resolve a user-provided file path to be relative to the repo root.
/// Handles both absolute paths and paths relative to the current directory.
pub fn resolve_file_path<B: Backend>(
    backend: &mut B,
    cwd: &str,
    root: &str,
    file: &str,
) -> (r: Result<String, Failure>)
    ensures
        (final(backend).world(), outcome(r)) == resolve_file_run(
            old(backend).world(),
            cwd@,
            root@,
            file@,
        ),
{
    let abs: String = if is_absolute(file) {
        file.to_owned()
    } else {
        join_path(cwd, file)
    };
    let abs = canonical(backend, abs.as_str());
    let top = canonical(backend, root);

    match relative(abs.as_str(), top.as_str()) {
        Some(rel) => Ok(rel),
        None => {
            let message = cat3("file ", file, " is outside the repository root");
            Err(fail(message.as_str()))
        },
    }
}

// ─── Overlay ─────────────────────────────────────────────────────────

/// Adding the files from the `i`-th on to the overlay of the repository at `root`,
/// whose paths are relative to it.
pub open spec fn add_each_run(w: World, root: Text, files: Seq<Text>, i: nat) -> (
    World,
    Outcome<()>,
)
    decreases files.len() - i,
{
    if i >= files.len() {
        (w, Ok(()))
    } else {
        let file = files[i as int];
        let (w, done) = overlay::add_file_run(w, Checkout::main_at(root), file);
        match done {
            Err(e) => (w, Err(e)),
            Ok(_) => add_each_run(w.note("[subcontext] Added: "@ + file), root, files, i + 1),
        }
    }
}

/// Adding what is at a path to the overlay: a file, or each of the files below a
/// directory, which go no more than `depth` levels deep.
pub open spec fn add_path_within(w: World, root: Text, path: Text, depth: nat) -> Option<
    (World, Outcome<()>),
> {
    let at = path_join(root, path);
    let (w, is_dir) = w.is_dir(at);
    if !is_dir {
        Some(add_each_run(w, root, seq![path], 0))
    } else {
        match below_within(w, at, path, Seq::empty(), depth) {
            None => None,
            Some((w, _, Err(e))) => Some((w, Err(e))),
            Some((w, found, Ok(_))) => Some(add_each_run(w, root, files_of(found), 0)),
        }
    }
}

/// Adding what is at the paths from the `i`-th on to the overlay.
pub open spec fn add_from_within(
    w: World,
    cwd: Text,
    root: Text,
    files: Seq<Text>,
    i: nat,
    depth: nat,
) -> Option<(World, Outcome<()>)>
    decreases files.len() - i,
{
    if i >= files.len() {
        Some((w, Ok(())))
    } else {
        let (w, resolved) = resolve_file_run(w, cwd, root, files[i as int]);
        match resolved {
            Err(e) => Some((w, Err(e))),
            Ok(resolved) => match add_path_within(w, root, resolved, depth) {
                None => None,
                Some((w, Err(e))) => Some((w, Err(e))),
                Some((w, Ok(_))) => add_from_within(w, cwd, root, files, i + 1, depth),
            },
        }
    }
}

proof fn lemma_add_path(w: World, root: Text, path: Text, depth: nat, more: nat)
    requires
        add_path_within(w, root, path, depth) is Some,
        depth <= more,
    ensures
        add_path_within(w, root, path, more) == add_path_within(w, root, path, depth),
{
    let at = path_join(root, path);
    let (w1, is_dir) = w.is_dir(at);
    if is_dir {
        walk_is_one(w1, at, path, Seq::empty(), depth, more);
    }
}

/// Add files to the overlay of the repository at `root`.
fn add_each<B: Backend>(backend: &mut B, root: &str, files: &Vec<String>) -> (r: Result<
    (),
    Failure,
>)
    ensures
        (final(backend).world(), outcome(r)) == add_each_run(
            old(backend).world(),
            root@,
            files.deep_view(),
            0,
        ),
{
    let ctx = CheckoutContext::main_only(root);
    let ghost w0 = backend.world();
    let ghost all = files.deep_view();
    let mut i: usize = 0;
    while i < files.len()
        invariant
            i <= files@.len(),
            all == files.deep_view(),
            ctx@ == Checkout::main_at(root@),
            w0 == old(backend).world(),
            add_each_run(backend.world(), root@, all, i as nat) == add_each_run(w0, root@, all, 0),
        decreases files@.len() - i,
    {
        let file = files[i].as_str();
        assert(all[i as int] == file@);
        overlay::add_file(backend, &ctx, file)?;
        let line = cat("[subcontext] Added: ", file);
        backend.note(line.as_str());
        i = i + 1;
    }
    Ok(())
}

/// Add what is at a path to the overlay: a file, or each of the files below a
/// directory.
fn add_path<B: Backend>(backend: &mut B, root: &str, path: &str) -> (r: Result<(), Failure>)
    ensures
        exists|depth: nat|
            #[trigger] add_path_within(old(backend).world(), root@, path@, depth) == Some(
                (final(backend).world(), outcome(r)),
            ),
{
    let ghost w0 = backend.world();
    let ghost at_once = add_path_within(w0, root@, path@, 0);
    let at = join_path(root, path);
    if !backend.is_dir(at.as_str()) {
        let mut files: Vec<String> = Vec::new();
        files.push(path.to_owned());
        assert(files.deep_view() =~= seq![path@]);
        return add_each(backend, root, &files);
    }
    let ghost w1 = backend.world();
    let mut found: Vec<Item> = Vec::new();
    assert(found.deep_view() =~= Seq::<ItemView>::empty());
    let walked = find_below(backend, at.as_str(), path, &mut found);
    proof {
        let depth = choose|depth: nat|
            #[trigger] below_within(w1, at@, path@, Seq::empty(), depth) == Some(
                (backend.world(), found.deep_view(), outcome(walked)),
            );
        let now = add_path_within(w0, root@, path@, depth);
    }
    walked?;
    let files = files_among(&found);
    add_each(backend, root, &files)
}

/// Adding files to the overlay, where the directories among them go no more than
/// `depth` levels deep.
pub open spec fn add_files_within(w: World, cwd: Text, files: Seq<Text>, depth: nat) -> Option<
    (World, Outcome<()>),
> {
    let (w, root) = find_main_run(w, cwd);
    match root {
        Err(e) => Some((w, Err(e))),
        Ok(root) => add_from_within(w, cwd, root, files, 0, depth),
    }
}

/// Add files, and the files below directories, to the overlay of the repository
/// around `cwd`.
pub fn add_files<B: Backend>(backend: &mut B, cwd: &str, files: &Vec<String>) -> (r: Result<
    (),
    Failure,
>)
    ensures
        exists|depth: nat|
            #[trigger] add_files_within(
                old(backend).world(),
                cwd@,
                files.deep_view(),
                depth,
            ) == Some((final(backend).world(), outcome(r))),
{
    let ghost w0 = backend.world();
    let ghost all = files.deep_view();
    let ghost at_once = add_files_within(w0, cwd@, all, 0);
    let root = find_main_git_root(backend, cwd)?;
    let ghost w1 = backend.world();
    let ghost mut need: nat = 0;
    let mut i: usize = 0;
    while i < files.len()
        invariant
            i <= files@.len(),
            all == files.deep_view(),
            all.len() == files@.len(),
            w0 == old(backend).world(),
            forall|depth: nat|
                #[trigger] add_files_within(w0, cwd@, all, depth) == add_from_within(
                    w1,
                    cwd@,
                    root@,
                    all,
                    0,
                    depth,
                ),
            forall|depth: nat|
                depth >= need ==> #[trigger] add_from_within(w1, cwd@, root@, all, 0, depth)
                    == add_from_within(backend.world(), cwd@, root@, all, i as nat, depth),
        decreases files@.len() - i,
    {
        proof {
            assert(all[i as int] == files@[i as int]@);
            assert(add_files_within(w0, cwd@, all, need) == add_from_within(
                w1,
                cwd@,
                root@,
                all,
                0,
                need,
            ));
        }
        let resolved = resolve_file_path(backend, cwd, root.as_str(), files[i].as_str())?;
        let ghost w2 = backend.world();
        let done = add_path(backend, root.as_str(), resolved.as_str());
        proof {
            let depth = choose|depth: nat|
                #[trigger] add_path_within(w2, root@, resolved@, depth) == Some(
                    (backend.world(), outcome(done)),
                );
            let enough: nat = if need > depth {
                need
            } else {
                depth
            };
            assert forall|d: nat| d >= enough implies #[trigger] add_from_within(
                w1,
                cwd@,
                root@,
                all,
                0,
                d,
            ) == (match outcome(done) {
                Err(e) => Some((backend.world(), Err::<(), Seq<Text>>(e))),
                Ok(_) => add_from_within(backend.world(), cwd@, root@, all, (i + 1) as nat, d),
            }) by {
                lemma_add_path(w2, root@, resolved@, depth, d);
            }
            need = enough;
            assert(add_files_within(w0, cwd@, all, need) == add_from_within(
                w1,
                cwd@,
                root@,
                all,
                0,
                need,
            ));
        }
        done?;
        i = i + 1;
    }
    proof {
        assert(add_files_within(w0, cwd@, all, need) == add_from_within(
            w1,
            cwd@,
            root@,
            all,
            0,
            need,
        ));
    }
    Ok(())
}

/// Removing the files from the `i`-th on from the overlay.
pub open spec fn remove_from_run(w: World, cwd: Text, root: Text, files: Seq<Text>, i: nat) -> (
    World,
    Outcome<()>,
)
    decreases files.len() - i,
{
    if i >= files.len() {
        (w, Ok(()))
    } else {
        let (w, resolved) = resolve_file_run(w, cwd, root, files[i as int]);
        match resolved {
            Err(e) => (w, Err(e)),
            Ok(resolved) => {
                let (w, done) = overlay::remove_file_run(w, Checkout::main_at(root), resolved);
                match done {
                    Err(e) => (w, Err(e)),
                    Ok(_) => remove_from_run(
                        w.note("[subcontext] Removed: "@ + resolved),
                        cwd,
                        root,
                        files,
                        i + 1,
                    ),
                }
            },
        }
    }
}

/// Removing files from the overlay.
pub open spec fn remove_files_run(w: World, cwd: Text, files: Seq<Text>) -> (World, Outcome<()>) {
    let (w, root) = find_main_run(w, cwd);
    match root {
        Err(e) => (w, Err(e)),
        Ok(root) => remove_from_run(w, cwd, root, files, 0),
    }
}

/// Remove files from the overlay of the repository around `cwd`.
pub fn remove_files<B: Backend>(backend: &mut B, cwd: &str, files: &Vec<String>) -> (r: Result<
    (),
    Failure,
>)
    ensures
        (final(backend).world(), outcome(r)) == remove_files_run(
            old(backend).world(),
            cwd@,
            files.deep_view(),
        ),
{
    let root = find_main_git_root(backend, cwd)?;
    let ctx = CheckoutContext::main_only(root.as_str());
    let ghost w1 = backend.world();
    let ghost all = files.deep_view();
    let mut i: usize = 0;
    while i < files.len()
        invariant
            i <= files@.len(),
            all == files.deep_view(),
            all.len() == files@.len(),
            ctx@ == Checkout::main_at(root@),
            find_main_run(old(backend).world(), cwd@) == (w1, Ok::<Text, Seq<Text>>(root@)),
            remove_from_run(backend.world(), cwd@, root@, all, i as nat) == remove_from_run(
                w1,
                cwd@,
                root@,
                all,
                0,
            ),
        decreases files@.len() - i,
    {
        let resolved = resolve_file_path(backend, cwd, root.as_str(), files[i].as_str())?;
        overlay::remove_file(backend, &ctx, resolved.as_str())?;
        let line = cat("[subcontext] Removed: ", resolved.as_str());
        backend.note(line.as_str());
        i = i + 1;
    }
    Ok(())
}

/// Saving the overlay.
pub open spec fn save_changes_run(w: World, cwd: Text, message: Option<Text>) -> (
    World,
    Outcome<()>,
) {
    let (w, root) = find_main_run(w, cwd);
    match root {
        Err(e) => (w, Err(e)),
        Ok(root) => {
            let message = match message {
                Some(message) => message,
                None => "manual save"@,
            };
            let (w, done) = overlay::save_run(w, Checkout::main_at(root), message);
            match done {
                Err(e) => (w, Err(e)),
                Ok(_) => (w.note("[subcontext] Saved overlay changes."@), Ok(())),
            }
        },
    }
}

/// Save the overlay of the repository around `cwd`.
pub fn save_changes<B: Backend>(backend: &mut B, cwd: &str, message: Option<&str>) -> (r: Result<
    (),
    Failure,
>)
    ensures
        (final(backend).world(), outcome(r)) == save_changes_run(
            old(backend).world(),
            cwd@,
            message.deep_view(),
        ),
{
    let root = find_main_git_root(backend, cwd)?;
    let ctx = CheckoutContext::main_only(root.as_str());
    let message = match message {
        Some(message) => message,
        None => "manual save",
    };
    overlay::save_overlay(backend, &ctx, message)?;
    backend.note("[subcontext] Saved overlay changes.");
    Ok(())
}

// ─── Submodules ──────────────────────────────────────────────────────

/// Adding a submodule to the overlay.
pub open spec fn add_submodule_run(w: World, cwd: Text, url: Text, path: Option<Text>) -> (
    World,
    Outcome<()>,
) {
    let (w, root) = find_main_run(w, cwd);
    match root {
        Err(e) => (w, Err(e)),
        Ok(root) => match path {
            None => submodule::add_run(w, Checkout::main_at(root), url, None),
            Some(path) => {
                let (w, resolved) = resolve_new_run(w, cwd, root, path);
                match resolved {
                    Err(e) => (w, Err(e)),
                    Ok(path) => submodule::add_run(w, Checkout::main_at(root), url, Some(path)),
                }
            },
        },
    }
}

/// Add a submodule to the overlay of the repository around `cwd`.
pub fn add_submodule<B: Backend>(
    backend: &mut B,
    cwd: &str,
    url: &str,
    path: Option<&str>,
) -> (r: Result<(), Failure>)
    ensures
        (final(backend).world(), outcome(r)) == add_submodule_run(
            old(backend).world(),
            cwd@,
            url@,
            path.deep_view(),
        ),
{
    let root = find_main_git_root(backend, cwd)?;
    let ctx = CheckoutContext::main_only(root.as_str());
    match path {
        None => crate::submodule::add(backend, &ctx, url, None),
        Some(path) => {
            let resolved = resolve_new_path(backend, cwd, root.as_str(), path)?;
            crate::submodule::add(backend, &ctx, url, Some(resolved.as_str()))
        },
    }
}

/// Removing a submodule from the overlay.
pub open spec fn remove_submodule_run(w: World, cwd: Text, path: Text) -> (World, Outcome<()>) {
    let (w, root) = find_main_run(w, cwd);
    match root {
        Err(e) => (w, Err(e)),
        Ok(root) => {
            let (w, resolved) = resolve_new_run(w, cwd, root, path);
            match resolved {
                Err(e) => (w, Err(e)),
                Ok(path) => submodule::remove_run(w, Checkout::main_at(root), path),
            }
        },
    }
}

/// Remove a submodule from the overlay of the repository around `cwd`.
pub fn remove_submodule<B: Backend>(backend: &mut B, cwd: &str, path: &str) -> (r: Result<
    (),
    Failure,
>)
    ensures
        (final(backend).world(), outcome(r)) == remove_submodule_run(
            old(backend).world(),
            cwd@,
            path@,
        ),
{
    let root = find_main_git_root(backend, cwd)?;
    let ctx = CheckoutContext::main_only(root.as_str());
    let resolved = resolve_new_path(backend, cwd, root.as_str(), path)?;
    submodule::remove(backend, &ctx, resolved.as_str())
}

// ─── Subcontexts ─────────────────────────────────────────────────────

/// Reading the UUID of the subcontext around a directory: that of the
/// repository, or outside of one that of the global subcontext.
pub open spec fn uuid_run(w: World, env: EnvView, cwd: Text) -> (World, Outcome<Text>) {
    let (w, root) = find_main_run(w, cwd);
    match root {
        Ok(root) => read_uuid_run(w, config_path(root)),
        Err(_) => {
            let (w, there) = exists_run(w, env);
            match there {
                Err(e) => (w, Err(e)),
                Ok(false) => (
                    w,
                    Err(failed("not inside a git repo and no global subcontext installed"@)),
                ),
                Ok(true) => {
                    let (w, scope) = global_scope_run(w, env);
                    match scope {
                        Err(e) => (w, Err(e)),
                        Ok(scope) => (w, Ok(scope.project_uuid)),
                    }
                },
            }
        },
    }
}

/// The UUID of the subcontext around `cwd`: that of the repository, or outside of
/// one that of the global subcontext.
pub fn current_uuid<B: Backend>(backend: &mut B, env: &Env, cwd: &str) -> (r: Result<
    String,
    Failure,
>)
    ensures
        (final(backend).world(), outcome(r)) == uuid_run(old(backend).world(), env@, cwd@),
{
    match find_main_git_root(backend, cwd) {
        Ok(root) => read_project_uuid(backend, root.as_str()),
        Err(_) => {
            if !global_exists(backend, env)? {
                return Err(fail("not inside a git repo and no global subcontext installed"));
            }
            let scope = global_task_scope(backend, env)?;
            Ok(scope.project_uuid)
        },
    }
}

/// Reading the UUID of the subcontext of the repository around a directory.
pub open spec fn local_uuid_run(w: World, cwd: Text) -> (World, Outcome<Text>) {
    let (w, root) = find_main_run(w, cwd);
    match root {
        Err(e) => (w, Err(e)),
        Ok(root) => read_uuid_run(w, config_path(root)),
    }
}

/// The UUID of the subcontext of the repository around `cwd`.
fn local_uuid<B: Backend>(backend: &mut B, cwd: &str) -> (r: Result<String, Failure>)
    ensures
        (final(backend).world(), outcome(r)) == local_uuid_run(old(backend).world(), cwd@),
{
    let root = find_main_git_root(backend, cwd)?;
    read_project_uuid(backend, root.as_str())
}

/// Telling of a subcontext: its UUID and its kind.
pub open spec fn titled_run(w: World, env: EnvView, uuid: Text) -> (World, Text) {
    let (w, kind) = match root_of(env) {
        Err(e) => (w, Err(e)),
        Ok(root) => kind_run(w, repo_in(base_of(root)), uuid, "unknown"@),
    };
    (w, uuid + " ("@ + kind_or_unknown(kind) + ")"@)
}

/// A subcontext as its UUID and its kind.
fn titled<B: Backend>(backend: &mut B, env: &Env, uuid: &str) -> (r: String)
    ensures
        (final(backend).world(), r@) == titled_run(old(backend).world(), env@, uuid@),
{
    let kind = match get_managed_kind(backend, env, uuid) {
        Ok(kind) => kind,
        Err(_) => "unknown".to_owned(),
    };
    cat4(uuid, " (", kind.as_str(), ")")
}

/// Telling of the parent of the subcontext around a directory.
pub open spec fn parent_run(w: World, env: EnvView, cwd: Text) -> (World, Outcome<Option<Text>>) {
    let (w, uuid) = local_uuid_run(w, cwd);
    match uuid {
        Err(e) => (w, Err(e)),
        Ok(uuid) => {
            let (w, parent) = get_parent_run(w, env, uuid);
            match parent {
                Err(e) => (w, Err(e)),
                Ok(None) => (w, Ok(None)),
                Ok(Some(parent)) => {
                    let (w, title) = titled_run(w, env, parent);
                    (w, Ok(Some(title)))
                },
            }
        },
    }
}

/// The parent of the subcontext around `cwd`, with its kind.
pub fn parent_line<B: Backend>(backend: &mut B, env: &Env, cwd: &str) -> (r: Result<
    Option<String>,
    Failure,
>)
    ensures
        (final(backend).world(), outcome(r)) == parent_run(old(backend).world(), env@, cwd@),
{
    let uuid = local_uuid(backend, cwd)?;
    match get_parent(backend, env, uuid.as_str())? {
        None => Ok(None),
        Some(parent) => Ok(Some(titled(backend, env, parent.as_str()))),
    }
}

/// Telling of the subcontexts from the `i`-th on, behind the lines in `told`.
pub open spec fn titles_run(w: World, env: EnvView, uuids: Seq<Text>, i: nat, told: Seq<Text>) -> (
    World,
    Seq<Text>,
)
    decreases uuids.len() - i,
{
    if i >= uuids.len() {
        (w, told)
    } else {
        let (w, title) = titled_run(w, env, uuids[i as int]);
        titles_run(w, env, uuids, i + 1, told.push(title))
    }
}

/// Telling of the children of the subcontext around a directory.
pub open spec fn child_lines_run(w: World, env: EnvView, cwd: Text) -> (World, Outcome<Seq<Text>>) {
    let (w, uuid) = local_uuid_run(w, cwd);
    match uuid {
        Err(e) => (w, Err(e)),
        Ok(uuid) => {
            let (w, children) = children_run(w, env, uuid);
            match children {
                Err(e) => (w, Err(e)),
                Ok(children) => {
                    let (w, lines) = titles_run(w, env, children, 0, Seq::empty());
                    (w, Ok(lines))
                },
            }
        },
    }
}

/// The children of the subcontext around `cwd`, each with its kind.
pub fn child_lines<B: Backend>(backend: &mut B, env: &Env, cwd: &str) -> (r: Result<
    Vec<String>,
    Failure,
>)
    ensures
        (final(backend).world(), outcome(r)) == child_lines_run(old(backend).world(), env@, cwd@),
{
    let uuid = local_uuid(backend, cwd)?;
    let children = get_children(backend, env, uuid.as_str())?;
    let ghost all = children.deep_view();
    let ghost w1 = backend.world();
    let mut lines: Vec<String> = Vec::new();
    let mut i: usize = 0;
    assert(lines.deep_view() =~= Seq::<Text>::empty());
    while i < children.len()
        invariant
            i <= children@.len(),
            all == children.deep_view(),
            all.len() == children@.len(),
            titles_run(backend.world(), env@, all, i as nat, lines.deep_view()) == titles_run(
                w1,
                env@,
                all,
                0,
                Seq::empty(),
            ),
        decreases children@.len() - i,
    {
        let ghost before = lines.deep_view();
        let line = titled(backend, env, children[i].as_str());
        let ghost view = line@;
        lines.push(line);
        assert(lines.deep_view() =~= before.push(view));
        i = i + 1;
    }
    Ok(lines)
}

// ─── Hooks ───────────────────────────────────────────────────────────

/// The warning of a hook that finds no checkout.
pub open spec fn warning(e: Seq<Text>) -> Text {
    "[subcontext] warning: "@ + joined(e, ": "@)
}

/// Show the warning of a hook that finds no checkout.
fn warn<B: Backend>(backend: &mut B, e: Failure)
    ensures
        final(backend).world() == old(backend).world().note(warning(e@)),
{
    let chain = e.chain_text();
    let line = cat("[subcontext] warning: ", chain.as_str());
    backend.note(line.as_str());
}

/// Handling a checkout in the repository around a directory.
pub open spec fn on_checkout_run(w: World, cwd: Text, prev: Text, new: Text, flag: Text) -> (
    World,
    Outcome<()>,
) {
    let (w, found) = find_checkout_run(w, cwd);
    match found {
        Err(e) => (w.note(warning(e)), Ok(())),
        Ok(c) => {
            let (w, done) = hook::checkout_run(w, c, prev, new, flag);
            hook::old_hook_run(
                hook::told(w, "post-checkout"@, done),
                c.main_root,
                "post-checkout"@,
                seq![prev, new, flag],
            )
        },
    }
}

/// Handle a checkout in the repository around `cwd`. Where there is none, only a
/// warning is shown.
pub fn on_checkout<B: Backend>(
    backend: &mut B,
    cwd: &str,
    prev_head: &str,
    new_head: &str,
    flag: &str,
) -> (r: Result<(), Failure>)
    ensures
        (final(backend).world(), outcome(r)) == on_checkout_run(
            old(backend).world(),
            cwd@,
            prev_head@,
            new_head@,
            flag@,
        ),
{
    match find_checkout_context(backend, cwd) {
        Ok(ctx) => hook::post_checkout(backend, &ctx, prev_head, new_head, flag),
        Err(e) => {
            warn(backend, e);
            Ok(())
        },
    }
}

/// Handling a commit in the repository around a directory.
pub open spec fn on_commit_run(w: World, cwd: Text) -> (World, Outcome<()>) {
    let (w, found) = find_checkout_run(w, cwd);
    match found {
        Err(e) => (w.note(warning(e)), Ok(())),
        Ok(c) => {
            let (w, done) = hook::commit_run(w, c);
            hook::old_hook_run(
                hook::told(w, "post-commit"@, done),
                c.main_root,
                "post-commit"@,
                Seq::empty(),
            )
        },
    }
}

/// Handle a commit in the repository around `cwd`. Where there is none, only a
/// warning is shown.
pub fn on_commit<B: Backend>(backend: &mut B, cwd: &str) -> (r: Result<(), Failure>)
    ensures
        (final(backend).world(), outcome(r)) == on_commit_run(old(backend).world(), cwd@),
{
    match find_checkout_context(backend, cwd) {
        Ok(ctx) => hook::post_commit(backend, &ctx),
        Err(e) => {
            warn(backend, e);
            Ok(())
        },
    }
}

// ─── Laws ────────────────────────────────────────────────────────────

/// A resolved path lies under the resolved root: it is what the parts of the
/// root lead to.
pub proof fn resolved_files_are_inside(w: World, cwd: Text, root: Text, file: Text)
    requires
        resolve_file_run(w, cwd, root, file).1 is Ok,
    ensures
        ({
            let (w1, abs) = canonical_run(w, path_join(cwd, file));
            let top = canonical_run(w1, root).1;
            parts(top).is_prefix_of(parts(abs))
        }),
{
}

/// A hook never fails where there is no repository: it warns.
pub proof fn hooks_outside_only_warn(w: World, cwd: Text, prev: Text, new: Text, flag: Text)
    requires
        find_checkout_run(w, cwd).1 is Err,
    ensures
        on_checkout_run(w, cwd, prev, new, flag).1 is Ok,
        on_commit_run(w, cwd).1 is Ok,
{
}

/// Adding files is one: where it ends, it ends the same way however deep the
/// directories may go.
pub proof fn adding_is_one(w: World, cwd: Text, files: Seq<Text>, depth: nat, more: nat)
    requires
        add_files_within(w, cwd, files, depth) is Some,
        depth <= more,
    ensures
        add_files_within(w, cwd, files, more) == add_files_within(w, cwd, files, depth),
{
    let (w1, root) = find_main_run(w, cwd);
    if root is Ok {
        lemma_add_from(w1, cwd, root->Ok_0, files, 0, depth, more);
    }
}

proof fn lemma_add_from(
    w: World,
    cwd: Text,
    root: Text,
    files: Seq<Text>,
    i: nat,
    depth: nat,
    more: nat,
)
    requires
        add_from_within(w, cwd, root, files, i, depth) is Some,
        depth <= more,
    ensures
        add_from_within(w, cwd, root, files, i, more) == add_from_within(
            w,
            cwd,
            root,
            files,
            i,
            depth,
        ),
    decreases files.len() - i,
{
    if i < files.len() {
        let (w1, resolved) = resolve_file_run(w, cwd, root, files[i as int]);
        if resolved is Ok {
            lemma_add_path(w1, root, resolved->Ok_0, depth, more);
            match add_path_within(w1, root, resolved->Ok_0, depth) {
                Some((w2, Ok(_))) => {
                    lemma_add_from(w2, cwd, root, files, i + 1, depth, more);
                },
                _ => {},
            }
        }
    }
}

} // verus!
