//! Global (per-user) subcontext.
//!
//! A global subcontext is installed outside any particular Git project. It
//! lives at `$GIT_SUBCONTEXT_PATH` (or `~/.subcontext` by default) and holds
//! a self-contained bare repo + worktrees with `kind: system` rather than
//! `kind: project`.
//!
//! The layout mirrors `.git/.subcontext/` but is nested under a `global/`
//! directory so the user-level root can also host unrelated data (other
//! worktrees, databases, ...).
//!
//! ```text
//! ~/.subcontext/
//! └── global/              ← this nested dir is the subcontext base
//!     ├── repo/
//!     ├── work/
//!     ├── config/
//!     └── state/
//! ```

use vstd::prelude::*;

use crate::backend::{
    argv2, argv3, argv4, argv5, argv6, write_text, Backend, GitInvocation, StoreRequest, TaskScope,
};
use crate::dolt::{
    batches_run, column, create_dolt_global_schema, download_dolt, download_run, find_bin_run,
    find_dolt_bin, global_schema, open_run, DoltConnection, DoltRow, DoltView,
};
use crate::environment::{Env, EnvView};
use crate::failure::{fail, failed, outcome, wrapped, Failure, Outcome};
use crate::git::run_git_in_bare;
use crate::json::{document, document_text, json_parsed, parse_json};
use crate::objects::{
    build_child_object_json, child_object_text, kind_in, object_kind, object_with_path, record_path,
};
use crate::paths::{join_path, path_join};
use crate::project::{
    ensure_config_run, ensure_config_with, fresh_uuid, is_uuid, read_kind_at, read_kind_run,
    read_project_uuid_at, read_uuid_run, SYSTEM_KIND, USER_KIND,
};
use crate::text::{cat, cat3, cat4, cat5, same, Text};
use crate::world::{ScopeView, StoreCall, World};

verus! {

pub const GLOBAL_ENV: &'static str = "GIT_SUBCONTEXT_PATH";

/// Default overlay branch used by the global subcontext (no host branch to
/// mirror).
pub const DEFAULT_OVERLAY_BRANCH: &'static str = "overlay/main";

/// Pseudo-branch recorded in task_names for global tasks.
pub const GLOBAL_HOST_BRANCH: &'static str = "global";

// ─── Where it is ─────────────────────────────────────────────────────

/// The root directory of the global subcontext.
pub open spec fn root_of(env: EnvView) -> Outcome<Text> {
    match (env.subcontext_path, env.home) {
        (Some(explicit), _) => Ok(explicit),
        (None, Some(home)) => Ok(path_join(home, ".subcontext"@)),
        (None, None) => Err(failed("HOME environment variable is not set"@)),
    }
}

/// The nested directory under a root.
pub open spec fn base_of(root: Text) -> Text {
    path_join(root, "global"@)
}

/// The directory of the user subcontext under a root.
pub open spec fn user_base(root: Text) -> Text {
    path_join(root, "user"@)
}

/// The bare repo in the directory of a subcontext.
pub open spec fn repo_in(base: Text) -> Text {
    path_join(base, "repo"@)
}

/// The config worktree in the directory of a subcontext.
pub open spec fn config_in(base: Text) -> Text {
    path_join(base, "config"@)
}

/// The overlay worktree in the directory of a subcontext.
pub open spec fn work_in(base: Text) -> Text {
    path_join(base, "work"@)
}

/// The state worktree in the directory of a subcontext.
pub open spec fn state_in(base: Text) -> Text {
    path_join(base, "state"@)
}

/// The database in the directory of a subcontext.
pub open spec fn dolt_in(base: Text) -> Text {
    path_join(base, "dolt"@)
}

/// What lies at `name` under the nested directory.
pub open spec fn global_place(env: EnvView, name: Text) -> Outcome<Text> {
    match root_of(env) {
        Err(e) => Err(e),
        Ok(root) => Ok(path_join(base_of(root), name)),
    }
}

/// Resolve the global subcontext root directory.
/// Honours `$GIT_SUBCONTEXT_PATH`, otherwise `$HOME/.subcontext`.
pub fn global_root(env: &Env) -> (r: Result<String, Failure>)
    ensures
        outcome(r) == root_of(env@),
{
    if let Some(explicit) = &env.subcontext_path {
        return Ok(explicit.clone());
    }
    match &env.home {
        Some(home) => Ok(join_path(home.as_str(), ".subcontext")),
        None => Err(fail("HOME environment variable is not set")),
    }
}

/// The nested directory containing the bare repo + worktrees.
pub fn global_subcontext_dir(env: &Env) -> (r: Result<String, Failure>)
    ensures
        outcome(r) == (match root_of(env@) {
            Err(e) => Err(e),
            Ok(root) => Ok(base_of(root)),
        }),
{
    let root = global_root(env)?;
    Ok(join_path(root.as_str(), "global"))
}

pub fn global_repo_dir(env: &Env) -> (r: Result<String, Failure>)
    ensures
        outcome(r) == global_place(env@, "repo"@),
{
    let base = global_subcontext_dir(env)?;
    Ok(join_path(base.as_str(), "repo"))
}

pub fn global_config_dir(env: &Env) -> (r: Result<String, Failure>)
    ensures
        outcome(r) == global_place(env@, "config"@),
{
    let base = global_subcontext_dir(env)?;
    Ok(join_path(base.as_str(), "config"))
}

pub fn global_work_dir(env: &Env) -> (r: Result<String, Failure>)
    ensures
        outcome(r) == global_place(env@, "work"@),
{
    let base = global_subcontext_dir(env)?;
    Ok(join_path(base.as_str(), "work"))
}

pub fn global_state_dir(env: &Env) -> (r: Result<String, Failure>)
    ensures
        outcome(r) == global_place(env@, "state"@),
{
    let base = global_subcontext_dir(env)?;
    Ok(join_path(base.as_str(), "state"))
}

pub fn global_dolt_dir(env: &Env) -> (r: Result<String, Failure>)
    ensures
        outcome(r) == global_place(env@, "dolt"@),
{
    let base = global_subcontext_dir(env)?;
    Ok(join_path(base.as_str(), "dolt"))
}

/// The directory of the user subcontext (~/.subcontext/user).
fn user_dir(env: &Env) -> (r: Result<String, Failure>)
    ensures
        outcome(r) == (match root_of(env@) {
            Err(e) => Err(e),
            Ok(root) => Ok(user_base(root)),
        }),
{
    let root = global_root(env)?;
    Ok(join_path(root.as_str(), "user"))
}

/// Config dir for the user subcontext (~/.subcontext/user/config).
pub fn user_config_dir(env: &Env) -> (r: Result<String, Failure>)
    ensures
        outcome(r) == (match root_of(env@) {
            Err(e) => Err(e),
            Ok(root) => Ok(config_in(user_base(root))),
        }),
{
    let base = user_dir(env)?;
    Ok(join_path(base.as_str(), "config"))
}

/// Asking whether there is a global subcontext.
pub open spec fn exists_run(w: World, env: EnvView) -> (World, Outcome<bool>) {
    match root_of(env) {
        Err(e) => (w, Err(e)),
        Ok(root) => {
            let (w, there) = w.path_exists(repo_in(base_of(root)));
            (w, Ok(there))
        },
    }
}

/// Does a global subcontext already exist on this machine?
pub fn global_exists<B: Backend>(backend: &mut B, env: &Env) -> (r: Result<bool, Failure>)
    ensures
        (final(backend).world(), outcome(r)) == exists_run(old(backend).world(), env@),
{
    let repo = global_repo_dir(env)?;
    Ok(backend.path_exists(repo.as_str()))
}

// ─── Installing ──────────────────────────────────────────────────────

/// A git command inside a bare repo.
pub open spec fn bare(w: World, repo: Text, args: Seq<Text>) -> (World, Outcome<Text>) {
    w.git_in_bare(args, repo, repo)
}

/// Committing a tree and pointing a ref at the commit.
pub open spec fn commit_to_ref(w: World, repo: Text, tree: Text, message: Text, reference: Text) -> (
    World,
    Outcome<()>,
) {
    let (w, commit) = bare(w, repo, seq!["commit-tree"@, tree, "-m"@, message]);
    match commit {
        Err(e) => (w, Err(e)),
        Ok(commit) => {
            let (w, done) = bare(w, repo, seq!["update-ref"@, reference, commit]);
            match done {
                Err(e) => (w, Err(e)),
                Ok(_) => (w, Ok(())),
            }
        },
    }
}

/// Commit a tree and point a ref at the commit.
fn commit_tree_to<B: Backend>(
    backend: &mut B,
    repo: &str,
    tree: &str,
    message: &str,
    reference: &str,
) -> (r: Result<(), Failure>)
    ensures
        (final(backend).world(), outcome(r)) == commit_to_ref(
            old(backend).world(),
            repo@,
            tree@,
            message@,
            reference@,
        ),
{
    let commit = run_git_in_bare(
        backend,
        &argv4("commit-tree", tree, "-m", message),
        repo,
        repo,
    )?;
    run_git_in_bare(backend, &argv3("update-ref", reference, commit.as_str()), repo, repo)?;
    Ok(())
}

/// Committing all changes in a worktree; nothing is committed where nothing has
/// changed.
pub open spec fn commit_all_run(w: World, dir: Text, message: Text) -> (World, Outcome<()>) {
    let (w, added) = w.git(seq!["add"@, "-A"@], dir);
    match added {
        Err(e) => (w, Err(e)),
        Ok(_) => {
            let (w, status) = w.git(seq!["status"@, "--porcelain"@], dir);
            match status {
                Err(e) => (w, Err(e)),
                Ok(status) => if status.len() == 0 {
                    (w, Ok(()))
                } else {
                    let (w, done) = w.git(seq!["commit"@, "-m"@, message], dir);
                    match done {
                        Err(e) => (w, Err(e)),
                        Ok(_) => (w, Ok(())),
                    }
                },
            }
        },
    }
}

/// Commit all changes in a worktree.
pub fn commit_all<B: Backend>(backend: &mut B, dir: &str, message: &str) -> (r: Result<
    (),
    Failure,
>)
    ensures
        (final(backend).world(), outcome(r)) == commit_all_run(
            old(backend).world(),
            dir@,
            message@,
        ),
{
    backend.add_all(dir)?;
    let status = backend.status_porcelain(dir)?;
    if !status.as_str().is_empty() {
        backend.commit(dir, message)?;
    }
    Ok(())
}

/// Having a Dolt binary: one that is found will do, else it is downloaded.
pub open spec fn dolt_ready_run(w: World, env: EnvView) -> (World, Outcome<()>) {
    let (w, bin) = find_bin_run(w, env);
    match bin {
        Ok(_) => (w, Ok(())),
        Err(_) => {
            let (w, done) = download_run(w, env);
            match done {
                Err(e) => (w, Err(e)),
                Ok(_) => (w, Ok(())),
            }
        },
    }
}

/// Ensure the dolt binary is available.
fn ensure_dolt<B: Backend>(backend: &mut B, env: &Env) -> (r: Result<(), Failure>)
    ensures
        (final(backend).world(), outcome(r)) == dolt_ready_run(old(backend).world(), env@),
{
    if find_dolt_bin(backend, env).is_err() {
        download_dolt(backend, env)?;
    }
    Ok(())
}

/// The first half of setting up a subcontext in `base`: the bare repo with its
/// config branch, and the configuration in it. The answer is the empty tree and
/// the UUID.
pub open spec fn setup_config_run(w: World, base: Text, kind: Text, fresh: Text) -> (
    World,
    Outcome<(Text, Text)>,
) {
    let repo = repo_in(base);
    let cfg = config_in(base);
    let (w, made) = w.git(seq!["init"@, "--bare"@, repo], base);
    match made {
        Err(e) => (w, Err(e)),
        Ok(_) => {
            let (w, tree) = bare(w, repo, seq!["hash-object"@, "-t"@, "tree"@, "/dev/null"@]);
            match tree {
                Err(e) => (w, Err(e)),
                Ok(tree) => {
                    let (w, branch) = commit_to_ref(
                        w,
                        repo,
                        tree,
                        "init config branch"@,
                        "refs/heads/config"@,
                    );
                    match branch {
                        Err(e) => (w, Err(e)),
                        Ok(_) => {
                            let (w, added) = w.git(
                                seq!["worktree"@, "add"@, cfg, "config"@],
                                repo,
                            );
                            match added {
                                Err(e) => (w, Err(e)),
                                Ok(_) => {
                                    let (w, uuid) = ensure_config_run(w, cfg, kind, fresh);
                                    match uuid {
                                        Err(e) => (w, Err(e)),
                                        Ok(uuid) => (w, Ok((tree, uuid))),
                                    }
                                },
                            }
                        },
                    }
                },
            }
        },
    }
}

/// The second half: the configuration is committed, the overlay branch gets its
/// worktree, and the state branch and its database are made.
pub open spec fn setup_rest_run(w: World, env: EnvView, base: Text, kind: Text, tree: Text) -> (
    World,
    Outcome<()>,
) {
    let repo = repo_in(base);
    let (w, committed) = commit_all_run(
        w,
        config_in(base),
        "subcontext: init "@ + kind + " config"@,
    );
    match committed {
        Err(e) => (w, Err(e)),
        Ok(_) => {
            let (w, branch) = commit_to_ref(
                w,
                repo,
                tree,
                "init overlay/main"@,
                "refs/heads/overlay/main"@,
            );
            match branch {
                Err(e) => (w, Err(e)),
                Ok(_) => {
                    let (w, added) = w.git(
                        seq!["worktree"@, "add"@, work_in(base), DEFAULT_OVERLAY_BRANCH@],
                        repo,
                    );
                    match added {
                        Err(e) => (w, Err(e)),
                        Ok(_) => {
                            let (w, ready) = dolt_ready_run(w, env);
                            match ready {
                                Err(e) => (w, Err(e)),
                                Ok(_) => {
                                    let (w, done) = w.store(
                                        StoreCall::InitState {
                                            repo,
                                            state: state_in(base),
                                            dolt: dolt_in(base),
                                        },
                                    );
                                    match done {
                                        Err(e) => (w, Err(e)),
                                        Ok(_) => (w, Ok(())),
                                    }
                                },
                            }
                        },
                    }
                },
            }
        },
    }
}

/// Setting up a subcontext in `base`; the answer is its UUID.
pub open spec fn setup_run(w: World, env: EnvView, base: Text, kind: Text, fresh: Text) -> (
    World,
    Outcome<Text>,
) {
    let (w, made) = w.create_dir_all(base);
    match made {
        Err(e) => (w, Err(e)),
        Ok(_) => {
            let (w, config) = setup_config_run(w, base, kind, fresh);
            match config {
                Err(e) => (w, Err(e)),
                Ok((tree, uuid)) => {
                    let (w, done) = setup_rest_run(w, env, base, kind, tree);
                    match done {
                        Err(e) => (w, Err(e)),
                        Ok(_) => (w, Ok(uuid)),
                    }
                },
            }
        },
    }
}

/// The first half of setting up a subcontext.
fn setup_config<B: Backend>(backend: &mut B, base: &str, kind: &str, fresh: &str) -> (r: Result<
    (String, String),
    Failure,
>)
    ensures
        (final(backend).world(), outcome(r)) == setup_config_run(
            old(backend).world(),
            base@,
            kind@,
            fresh@,
        ),
{
    let repo = join_path(base, "repo");
    let cfg = join_path(base, "config");

    // 1. Init bare repo.
    backend.init_bare(base, repo.as_str())?;

    // 2. Create config branch via plumbing.
    let empty_tree = run_git_in_bare(
        backend,
        &argv4("hash-object", "-t", "tree", "/dev/null"),
        repo.as_str(),
        repo.as_str(),
    )?;
    commit_tree_to(
        backend,
        repo.as_str(),
        empty_tree.as_str(),
        "init config branch",
        "refs/heads/config",
    )?;

    // 3. Add config worktree.
    backend.worktree_add(repo.as_str(), cfg.as_str(), "config")?;

    // 4. Write the subcontext.yaml.
    let uuid = ensure_config_with(backend, cfg.as_str(), kind, fresh)?;
    Ok((empty_tree, uuid))
}

/// The second half of setting up a subcontext.
fn setup_rest<B: Backend>(backend: &mut B, env: &Env, base: &str, kind: &str, tree: &str) -> (r:
    Result<(), Failure>)
    ensures
        (final(backend).world(), outcome(r)) == setup_rest_run(
            old(backend).world(),
            env@,
            base@,
            kind@,
            tree@,
        ),
{
    let repo = join_path(base, "repo");
    let cfg = join_path(base, "config");
    let work = join_path(base, "work");
    let state = join_path(base, "state");
    let dolt_path = join_path(base, "dolt");

    // 5. Commit the config tree.
    let message = cat3("subcontext: init ", kind, " config");
    commit_all(backend, cfg.as_str(), message.as_str())?;

    // 6. Create the default overlay branch and its worktree.
    commit_tree_to(
        backend,
        repo.as_str(),
        tree,
        "init overlay/main",
        "refs/heads/overlay/main",
    )?;
    backend.worktree_add(repo.as_str(), work.as_str(), DEFAULT_OVERLAY_BRANCH)?;

    // 7. Initialize state branch + Dolt database.
    ensure_dolt(backend, env)?;
    backend.store(
        &StoreRequest::InitState {
            repo: repo.as_str(),
            state: state.as_str(),
            dolt: dolt_path.as_str(),
        },
    )?;
    Ok(())
}

/// Set up a subcontext in `base`. Returns its UUID.
fn setup<B: Backend>(backend: &mut B, env: &Env, base: &str, kind: &str, fresh: &str) -> (r: Result<
    String,
    Failure,
>)
    ensures
        (final(backend).world(), outcome(r)) == setup_run(
            old(backend).world(),
            env@,
            base@,
            kind@,
            fresh@,
        ),
{
    backend.create_dir_all(base)?;
    let (tree, uuid) = setup_config(backend, base, kind, fresh)?;
    setup_rest(backend, env, base, kind, tree.as_str())?;
    Ok(uuid)
}

/// Installing the global subcontext; a new one gets the UUID `fresh`.
pub open spec fn install_run(w: World, env: EnvView, fresh: Text) -> (World, Outcome<()>) {
    match root_of(env) {
        Err(e) => (w, Err(e)),
        Ok(root) => {
            let base = base_of(root);
            let (w, there) = w.path_exists(repo_in(base));
            if there {
                (
                    w.note(
                        "[subcontext] Global subcontext already installed at "@ + base + "."@,
                    ),
                    Ok(()),
                )
            } else {
                let w = w.note(
                    "[subcontext] Initializing global subcontext at "@ + base + "..."@,
                );
                let (w, done) = setup_run(w, env, base, SYSTEM_KIND@, fresh);
                match done {
                    Err(e) => (w, Err(e)),
                    Ok(_) => (w.note("[subcontext] Global subcontext installed."@), Ok(())),
                }
            }
        },
    }
}

/// Install a global subcontext; a new one gets the UUID `fresh`.
pub fn install_with<B: Backend>(backend: &mut B, env: &Env, fresh: &str) -> (r: Result<(), Failure>)
    ensures
        (final(backend).world(), outcome(r)) == install_run(old(backend).world(), env@, fresh@),
{
    let sc_dir = global_subcontext_dir(env)?;
    if global_exists(backend, env)? {
        let line = cat3(
            "[subcontext] Global subcontext already installed at ",
            sc_dir.as_str(),
            ".",
        );
        backend.note(line.as_str());
        return Ok(());
    }
    let line = cat3(
        "[subcontext] Initializing global subcontext at ",
        sc_dir.as_str(),
        "...",
    );
    backend.note(line.as_str());
    setup(backend, env, sc_dir.as_str(), SYSTEM_KIND, fresh)?;
    backend.note("[subcontext] Global subcontext installed.");
    Ok(())
}

/// Install a fresh global subcontext. Idempotent: re-runs leave an existing
/// install alone.
pub fn install<B: Backend>(backend: &mut B, env: &Env) -> (r: Result<(), Failure>)
    ensures
        exists|fresh: Text|
            is_uuid(fresh) && (final(backend).world(), outcome(r)) == #[trigger] install_run(
                old(backend).world(),
                env@,
                fresh,
            ),
{
    let fresh = fresh_uuid();
    install_with(backend, env, fresh.as_str())
}

// ─── Scopes ──────────────────────────────────────────────────────────

/// The scope of the subcontext in `base`, with its UUID.
pub open spec fn scope_at(base: Text, uuid: Text) -> ScopeView {
    ScopeView {
        repo_dir: repo_in(base),
        state_dir: state_in(base),
        dolt_dir: dolt_in(base),
        scratch_base: base,
        host_branch: GLOBAL_HOST_BRANCH@,
        project_uuid: uuid,
    }
}

/// Reading the scope of the subcontext in `base`.
pub open spec fn scope_run(w: World, base: Text) -> (World, Outcome<ScopeView>) {
    let (w, uuid) = read_uuid_run(w, config_in(base));
    match uuid {
        Err(e) => (w, Err(e)),
        Ok(uuid) => (w, Ok(scope_at(base, uuid))),
    }
}

/// Reading the scope of the global subcontext.
pub open spec fn global_scope_run(w: World, env: EnvView) -> (World, Outcome<ScopeView>) {
    match root_of(env) {
        Err(e) => (w, Err(e)),
        Ok(root) => scope_run(w, base_of(root)),
    }
}

/// Reading the scope of the user subcontext.
pub open spec fn user_scope_run(w: World, env: EnvView) -> (World, Outcome<ScopeView>) {
    match root_of(env) {
        Err(e) => (w, Err(e)),
        Ok(root) => {
            let (w, there) = w.path_exists(repo_in(user_base(root)));
            if !there {
                (
                    w,
                    Err(
                        failed(
                            "no user subcontext installed — run `subcontext install --user` first"@,
                        ),
                    ),
                )
            } else {
                scope_run(w, user_base(root))
            }
        },
    }
}

/// The scope of the subcontext in `base`.
fn scope_of<B: Backend>(backend: &mut B, base: &str) -> (r: Result<TaskScope, Failure>)
    ensures
        (final(backend).world(), outcome(r)) == scope_run(old(backend).world(), base@),
{
    let cfg = join_path(base, "config");
    let project_uuid = read_project_uuid_at(backend, cfg.as_str())?;
    Ok(
        TaskScope {
            repo_dir: join_path(base, "repo"),
            state_dir: join_path(base, "state"),
            dolt_dir: join_path(base, "dolt"),
            scratch_base: base.to_owned(),
            host_branch: GLOBAL_HOST_BRANCH.to_owned(),
            project_uuid,
        },
    )
}

/// Build a TaskScope that targets the global subcontext.
pub fn global_task_scope<B: Backend>(backend: &mut B, env: &Env) -> (r: Result<TaskScope, Failure>)
    ensures
        (final(backend).world(), outcome(r)) == global_scope_run(old(backend).world(), env@),
{
    let base = global_subcontext_dir(env)?;
    scope_of(backend, base.as_str())
}

/// Build a TaskScope targeting the user subcontext.
pub fn user_task_scope<B: Backend>(backend: &mut B, env: &Env) -> (r: Result<TaskScope, Failure>)
    ensures
        (final(backend).world(), outcome(r)) == user_scope_run(old(backend).world(), env@),
{
    let base = user_dir(env)?;
    let repo = join_path(base.as_str(), "repo");
    if !backend.path_exists(repo.as_str()) {
        return Err(
            fail("no user subcontext installed — run `subcontext install --user` first"),
        );
    }
    scope_of(backend, base.as_str())
}

// ─── Objects ─────────────────────────────────────────────────────────

/// The ref of the object branch of a UUID.
pub open spec fn object_ref(uuid: Text) -> Text {
    "refs/heads/object/"@ + uuid
}

/// Asking whether a repo has an object branch for a UUID.
pub open spec fn has_object_run(w: World, repo: Text, uuid: Text) -> (World, bool) {
    let (w, found) = bare(
        w,
        repo,
        seq!["show-ref"@, "--verify"@, "--quiet"@, object_ref(uuid)],
    );
    (w, found is Ok)
}

/// Does a repo have an object branch for a UUID?
pub fn has_object<B: Backend>(backend: &mut B, repo: &str, uuid: &str) -> (r: bool)
    ensures
        (final(backend).world(), r) == has_object_run(old(backend).world(), repo@, uuid@),
{
    let ref_name = cat("refs/heads/object/", uuid);
    run_git_in_bare(
        backend,
        &argv4("show-ref", "--verify", "--quiet", ref_name.as_str()),
        repo,
        repo,
    ).is_ok()
}

/// A git command on a bare repo with an index of its own.
pub open spec fn indexed(w: World, repo: Text, index: Text, args: Seq<Text>) -> (
    World,
    Outcome<Text>,
) {
    w.git_env(
        seq!["--git-dir="@ + repo] + args,
        repo,
        seq![("GIT_INDEX_FILE"@, index)],
        Seq::empty(),
    )
}

/// Writing a blob by way of the scratch file `tmp`, which is removed again.
pub open spec fn blob_run(w: World, repo: Text, tmp: Text, content: Text) -> (
    World,
    Outcome<Text>,
) {
    let (w, written) = w.write(tmp, content);
    match written {
        Err(e) => (w, Err(e)),
        Ok(_) => {
            let (w, blob) = bare(w, repo, seq!["hash-object"@, "-w"@, tmp]);
            match blob {
                Err(e) => (w, Err(e)),
                Ok(blob) => (w.remove_file(tmp).0, Ok(blob)),
            }
        },
    }
}

/// Writing a tree whose one entry is `object.json`, by way of the scratch index
/// `index`, which is removed before and after.
pub open spec fn tree_run(w: World, repo: Text, index: Text, blob: Text) -> (World, Outcome<Text>) {
    let (w, there) = w.path_exists(index);
    let w = if there {
        w.remove_file(index).0
    } else {
        w
    };
    let (w, updated) = indexed(
        w,
        repo,
        index,
        seq![
            "update-index"@,
            "--add"@,
            "--cacheinfo"@,
            "100644,"@ + blob + ",object.json"@,
        ],
    );
    match updated {
        Err(e) => (w, Err(e)),
        Ok(_) => {
            let (w, tree) = indexed(w, repo, index, seq!["write-tree"@]);
            match tree {
                Err(e) => (w, Err(e)),
                Ok(tree) => (w.remove_file(index).0, Ok(tree)),
            }
        },
    }
}

/// Writing the tree of an object, with scratch files in `base` whose names begin
/// with `tmp` and `index`.
pub open spec fn object_tree_run(
    w: World,
    base: Text,
    uuid: Text,
    tmp: Text,
    index: Text,
    content: Text,
) -> (World, Outcome<Text>) {
    let repo = repo_in(base);
    let (w, made) = w.create_dir_all(base);
    match made {
        Err(e) => (w, Err(e)),
        Ok(_) => {
            let (w, blob) = blob_run(w, repo, path_join(base, tmp + uuid + ".tmp"@), content);
            match blob {
                Err(e) => (w, Err(e)),
                Ok(blob) => tree_run(w, repo, path_join(base, index + uuid + ".tmp"@), blob),
            }
        },
    }
}

/// Write a blob by way of a scratch file.
fn write_blob<B: Backend>(backend: &mut B, repo: &str, tmp: &str, content: &str) -> (r: Result<
    String,
    Failure,
>)
    ensures
        (final(backend).world(), outcome(r)) == blob_run(
            old(backend).world(),
            repo@,
            tmp@,
            content@,
        ),
{
    write_text(backend, tmp, content)?;
    let blob = run_git_in_bare(backend, &argv3("hash-object", "-w", tmp), repo, repo)?;
    let _ = backend.remove_file(tmp);
    Ok(blob)
}

/// Write a tree whose one entry is `object.json`, by way of a scratch index.
fn write_tree<B: Backend>(backend: &mut B, repo: &str, index: &str, blob: &str) -> (r: Result<
    String,
    Failure,
>)
    ensures
        (final(backend).world(), outcome(r)) == tree_run(
            old(backend).world(),
            repo@,
            index@,
            blob@,
        ),
{
    if backend.path_exists(index) {
        let _ = backend.remove_file(index);
    }
    let git_dir_flag = cat("--git-dir=", repo);
    let cacheinfo = cat3("100644,", blob, ",object.json");
    let env_set = [("GIT_INDEX_FILE", index)];
    let env_remove: [&str; 0] = [];
    assert(env_set.deep_view() =~= seq![("GIT_INDEX_FILE"@, index@)]);
    assert(env_remove.deep_view() =~= Seq::<Text>::empty());
    let update = argv5(
        git_dir_flag.as_str(),
        "update-index",
        "--add",
        "--cacheinfo",
        cacheinfo.as_str(),
    );
    proof {
        assert(update.deep_view() =~= seq![git_dir_flag@] + seq![
            "update-index"@,
            "--add"@,
            "--cacheinfo"@,
            cacheinfo@,
        ]);
    }
    backend.git(
        &GitInvocation { args: &update, cwd: repo, env_set: &env_set, env_remove: &env_remove },
    )?;
    let write = argv2(git_dir_flag.as_str(), "write-tree");
    assert(write.deep_view() =~= seq![git_dir_flag@] + seq!["write-tree"@]);
    let tree = backend.git(
        &GitInvocation { args: &write, cwd: repo, env_set: &env_set, env_remove: &env_remove },
    )?;
    let _ = backend.remove_file(index);
    Ok(tree)
}

/// Write the tree of an object.
fn write_object_tree<B: Backend>(
    backend: &mut B,
    base: &str,
    uuid: &str,
    tmp: &str,
    index: &str,
    content: &str,
) -> (r: Result<String, Failure>)
    ensures
        (final(backend).world(), outcome(r)) == object_tree_run(
            old(backend).world(),
            base@,
            uuid@,
            tmp@,
            index@,
            content@,
        ),
{
    let repo = join_path(base, "repo");
    backend.create_dir_all(base)?;
    let tmp_name = cat3(tmp, uuid, ".tmp");
    let tmp_file = join_path(base, tmp_name.as_str());
    let blob = write_blob(backend, repo.as_str(), tmp_file.as_str(), content)?;
    let index_name = cat3(index, uuid, ".tmp");
    let index_file = join_path(base, index_name.as_str());
    write_tree(backend, repo.as_str(), index_file.as_str(), blob.as_str())
}

/// Creating the object branch of a child.
pub open spec fn create_child_run(w: World, base: Text, uuid: Text, kind: Text) -> (
    World,
    Outcome<Option<Text>>,
) {
    let repo = repo_in(base);
    let (w, tree) = object_tree_run(
        w,
        base,
        uuid,
        ".child-"@,
        ".child-index-"@,
        child_object_text(uuid, kind),
    );
    match tree {
        Err(e) => (w, Err(e)),
        Ok(tree) => {
            let (w, commit) = bare(
                w,
                repo,
                seq!["commit-tree"@, tree, "-m"@, "register child "@ + uuid],
            );
            match commit {
                Err(e) => (w, Err(e)),
                Ok(commit) => {
                    let (w, done) = bare(w, repo, seq!["update-ref"@, object_ref(uuid), commit]);
                    match done {
                        Err(e) => (w, Err(e)),
                        Ok(_) => (
                            w.note(
                                "[subcontext] Registered child "@ + uuid + " ("@ + kind
                                    + ") in global subcontext."@,
                            ),
                            Ok(Some(commit)),
                        ),
                    }
                },
            }
        },
    }
}

/// Registering a child with the global subcontext.
pub open spec fn register_run(w: World, env: EnvView, uuid: Text, kind: Text) -> (
    World,
    Outcome<Option<Text>>,
) {
    match root_of(env) {
        Err(e) => (w, Err(e)),
        Ok(root) => {
            let base = base_of(root);
            let (w, there) = w.path_exists(repo_in(base));
            if !there {
                (w, Ok(None))
            } else {
                let (w, known) = has_object_run(w, repo_in(base), uuid);
                if known {
                    (w, Ok(None))
                } else {
                    create_child_run(w, base, uuid, kind)
                }
            }
        },
    }
}

/// Register a child subcontext in the global subcontext by creating an
/// `object/<child_uuid>` branch with a single `object.json` (type "child",
/// child data inlined under "data").
/// Returns `Some(commit_sha)` if a branch was created, `None` if it already
/// existed or no global subcontext is installed.
pub fn register_child<B: Backend>(
    backend: &mut B,
    env: &Env,
    child_uuid: &str,
    child_kind: &str,
) -> (r: Result<Option<String>, Failure>)
    ensures
        (final(backend).world(), outcome(r)) == register_run(
            old(backend).world(),
            env@,
            child_uuid@,
            child_kind@,
        ),
{
    if !global_exists(backend, env)? {
        return Ok(None);
    }
    let sc_dir = global_subcontext_dir(env)?;
    let repo = join_path(sc_dir.as_str(), "repo");

    // Idempotent: if the branch already exists, leave it alone.
    if has_object(backend, repo.as_str(), child_uuid) {
        return Ok(None);
    }
    let object_json = build_child_object_json(child_uuid, child_kind);
    let tree = write_object_tree(
        backend,
        sc_dir.as_str(),
        child_uuid,
        ".child-",
        ".child-index-",
        object_json.as_str(),
    )?;
    let message = cat("register child ", child_uuid);
    let commit = run_git_in_bare(
        backend,
        &argv4("commit-tree", tree.as_str(), "-m", message.as_str()),
        repo.as_str(),
        repo.as_str(),
    )?;
    let ref_name = cat("refs/heads/object/", child_uuid);
    run_git_in_bare(
        backend,
        &argv3("update-ref", ref_name.as_str(), commit.as_str()),
        repo.as_str(),
        repo.as_str(),
    )?;
    let line = cat5(
        "[subcontext] Registered child ",
        child_uuid,
        " (",
        child_kind,
        ") in global subcontext.",
    );
    backend.note(line.as_str());
    Ok(Some(commit))
}

/// Committing a new `object.json` of a child on top of its branch.
pub open spec fn update_child_run(w: World, base: Text, uuid: Text, content: Text) -> (
    World,
    Outcome<Option<Text>>,
) {
    let repo = repo_in(base);
    let (w, tree) = object_tree_run(
        w,
        base,
        uuid,
        ".child-update-"@,
        ".child-update-index-"@,
        content,
    );
    match tree {
        Err(e) => (w, Err(e)),
        Ok(tree) => {
            let (w, parent) = bare(w, repo, seq!["rev-parse"@, object_ref(uuid)]);
            match parent {
                Err(e) => (w, Err(e)),
                Ok(parent) => {
                    let (w, commit) = bare(
                        w,
                        repo,
                        seq![
                            "commit-tree"@,
                            tree,
                            "-p"@,
                            parent,
                            "-m"@,
                            "update child "@ + uuid + " checkout_path"@,
                        ],
                    );
                    match commit {
                        Err(e) => (w, Err(e)),
                        Ok(commit) => {
                            let (w, done) = bare(
                                w,
                                repo,
                                seq!["update-ref"@, object_ref(uuid), commit],
                            );
                            match done {
                                Err(e) => (w, Err(e)),
                                Ok(_) => (w, Ok(Some(commit))),
                            }
                        },
                    }
                },
            }
        },
    }
}

/// Reading the `object.json` of a UUID.
pub open spec fn object_text_run(w: World, repo: Text, uuid: Text) -> (World, Outcome<Text>) {
    bare(w, repo, seq!["show"@, "object/"@ + uuid + ":object.json"@])
}

/// Read the `object.json` of a UUID.
fn object_text<B: Backend>(backend: &mut B, repo: &str, uuid: &str) -> (r: Result<String, Failure>)
    ensures
        (final(backend).world(), outcome(r)) == object_text_run(
            old(backend).world(),
            repo@,
            uuid@,
        ),
{
    let name = cat3("object/", uuid, ":object.json");
    run_git_in_bare(backend, &argv2("show", name.as_str()), repo, repo)
}

/// Recording a checkout path of a child.
pub open spec fn record_run(w: World, env: EnvView, uuid: Text, git_dir: Text) -> (
    World,
    Outcome<Option<Text>>,
) {
    match root_of(env) {
        Err(e) => (w, Err(e)),
        Ok(root) => {
            let base = base_of(root);
            let (w, there) = w.path_exists(repo_in(base));
            if !there {
                (w, Ok(None))
            } else {
                let (w, known) = has_object_run(w, repo_in(base), uuid);
                if !known {
                    (w, Ok(None))
                } else {
                    let (w, current) = object_text_run(w, repo_in(base), uuid);
                    match current {
                        Err(e) => (w, Err(e)),
                        Ok(current) => match json_parsed(current) {
                            Err(e) => (
                                w,
                                Err(wrapped("invalid object.json on object/"@ + uuid, failed(e))),
                            ),
                            Ok(object) => match object_with_path(object, git_dir) {
                                Err(e) => (w, Err(e)),
                                Ok(None) => (w, Ok(None)),
                                Ok(Some(object)) => update_child_run(
                                    w,
                                    base,
                                    uuid,
                                    document_text(object),
                                ),
                            },
                        },
                    }
                }
            }
        },
    }
}

/// Record a checkout path (path to the child's `.git` *folder*) in the
/// `object/<child_uuid>` branch's `object.json` (under `data.checkout_path`).
/// If the file already lists a different path, promote `checkout_path` to an
/// array; adding a path that is already present is a no-op.
///
/// Returns `Some(commit_sha)` if the branch was updated, `None` if no update
/// was needed. No-op if no global subcontext is installed or the object
/// branch doesn't exist yet.
pub fn record_child_checkout_path<B: Backend>(
    backend: &mut B,
    env: &Env,
    child_uuid: &str,
    git_dir: &str,
) -> (r: Result<Option<String>, Failure>)
    ensures
        (final(backend).world(), outcome(r)) == record_run(
            old(backend).world(),
            env@,
            child_uuid@,
            git_dir@,
        ),
{
    if !global_exists(backend, env)? {
        return Ok(None);
    }
    let sc_dir = global_subcontext_dir(env)?;
    let repo = join_path(sc_dir.as_str(), "repo");

    // No object branch: nothing to update.
    if !has_object(backend, repo.as_str(), child_uuid) {
        return Ok(None);
    }
    let current = object_text(backend, repo.as_str(), child_uuid)?;
    let object = match parse_json(current.as_str()) {
        Ok(object) => object,
        Err(e) => {
            let message = cat("invalid object.json on object/", child_uuid);
            return Err(fail(e.as_str()).within(message.as_str()));
        },
    };
    let object = match record_path(object, git_dir)? {
        None => {
            return Ok(None);
        },
        Some(object) => object,
    };

    // Write new blob, build tree, commit with the current tip as parent.
    let new_json = document(&object);
    let tree = write_object_tree(
        backend,
        sc_dir.as_str(),
        child_uuid,
        ".child-update-",
        ".child-update-index-",
        new_json.as_str(),
    )?;
    let ref_name = cat("refs/heads/object/", child_uuid);
    let parent = run_git_in_bare(
        backend,
        &argv2("rev-parse", ref_name.as_str()),
        repo.as_str(),
        repo.as_str(),
    )?;
    let message = cat3("update child ", child_uuid, " checkout_path");
    let commit = run_git_in_bare(
        backend,
        &argv6("commit-tree", tree.as_str(), "-p", parent.as_str(), "-m", message.as_str()),
        repo.as_str(),
        repo.as_str(),
    )?;
    run_git_in_bare(
        backend,
        &argv3("update-ref", ref_name.as_str(), commit.as_str()),
        repo.as_str(),
        repo.as_str(),
    )?;
    Ok(Some(commit))
}

// ─── The system database ─────────────────────────────────────────────

/// Creating the extra tables where they are missing.
pub open spec fn extra_schema_run(w: World, c: DoltView) -> (World, Outcome<()>) {
    batches_run(w, c, global_schema(), 0)
}

/// Ensure extra schema tables exist in the global DB (config table, parents
/// table). Called lazily: safe to call multiple times.
pub fn ensure_global_extra_schema<B: Backend>(backend: &mut B, conn: &DoltConnection) -> (r: Result<
    (),
    Failure,
>)
    ensures
        (final(backend).world(), outcome(r)) == extra_schema_run(old(backend).world(), conn@),
{
    create_dolt_global_schema(backend, conn)
}

/// Opening the system database: its scope is read, a connection made, and the
/// extra tables are created where they are missing.
pub open spec fn system_run(w: World, env: EnvView) -> (World, Outcome<(ScopeView, DoltView)>) {
    let (w, scope) = global_scope_run(w, env);
    match scope {
        Err(e) => (w, Err(e)),
        Ok(scope) => {
            let (w, conn) = open_run(w, env, scope.dolt_dir);
            match conn {
                Err(e) => (w, Err(e)),
                Ok(conn) => {
                    let (w, ready) = extra_schema_run(w, conn);
                    match ready {
                        Err(e) => (w, Err(e)),
                        Ok(_) => (w, Ok((scope, conn))),
                    }
                },
            }
        },
    }
}

/// Open the system database.
pub(crate) fn open_system<B: Backend>(backend: &mut B, env: &Env) -> (r: Result<
    (TaskScope, DoltConnection),
    Failure,
>)
    ensures
        (final(backend).world(), outcome(r)) == system_run(old(backend).world(), env@),
{
    let scope = global_task_scope(backend, env)?;
    let conn = DoltConnection::open(backend, env, scope.dolt_dir.as_str())?;
    ensure_global_extra_schema(backend, &conn)?;
    Ok((scope, conn))
}

/// The first column of a row, as a text that may be missing.
fn first_text(row: &DoltRow<'_>) -> (r: Result<Option<String>, Failure>)
    ensures
        outcome(r) == column::<Option<String>>(row@, 0),
{
    row.get::<Option<String>>(0)
}

/// A query for one text: none where there is no row, or it holds none.
pub open spec fn text_query_run(w: World, c: DoltView, sql: Text, params: Seq<Text>) -> (
    World,
    Outcome<Option<Text>>,
) {
    let (w, row) = c.first_row(w, sql, params);
    match row {
        Err(e) => (w, Err(e)),
        Ok(None) => (w, Ok(None)),
        Ok(Some(row)) => (w, column::<Option<String>>(row, 0)),
    }
}

/// Query for one text.
pub(crate) fn query_text<B: Backend>(
    backend: &mut B,
    conn: &DoltConnection,
    sql: &str,
    params: &[&str],
) -> (r: Result<Option<String>, Failure>)
    ensures
        (final(backend).world(), outcome(r)) == text_query_run(
            old(backend).world(),
            conn@,
            sql@,
            params.deep_view(),
        ),
{
    match conn.query_row(backend, sql, params, first_text) {
        Ok(Some(value)) => Ok(value),
        Ok(None) => Ok(None),
        Err(e) => Err(e),
    }
}

/// The query for the current user.
pub open spec fn user_query() -> Text {
    "SELECT value FROM config WHERE key_name = 'current_user'"@
}

/// The query for the parent of a child.
pub open spec fn parent_query() -> Text {
    "SELECT parent_uuid FROM parents WHERE child_uuid = ?1"@
}

/// Committing the system database.
pub open spec fn commit_system_run(w: World, scope: ScopeView, message: Text) -> (
    World,
    Outcome<()>,
) {
    let (w, done) = w.store(StoreCall::CommitTracked { scope, message });
    match done {
        Err(e) => (w, Err(e)),
        Ok(_) => (w, Ok(())),
    }
}

/// Commit the system database.
fn commit_system<B: Backend>(backend: &mut B, scope: &TaskScope, message: &str) -> (r: Result<
    (),
    Failure,
>)
    ensures
        (final(backend).world(), outcome(r)) == commit_system_run(
            old(backend).world(),
            scope@,
            message@,
        ),
{
    backend.store(&StoreRequest::CommitTracked { scope, message })?;
    Ok(())
}

/// Storing the current user.
pub open spec fn store_user_run(w: World, scope: ScopeView, c: DoltView, uuid: Text) -> (
    World,
    Outcome<()>,
) {
    let (w, done) = c.execute(
        w,
        "REPLACE INTO config (key_name, value) VALUES (?1, ?2)"@,
        seq!["current_user"@, uuid],
    );
    match done {
        Err(e) => (w, Err(e)),
        Ok(_) => commit_system_run(w, scope, "set current user: "@ + uuid),
    }
}

/// Store the current user.
fn store_user<B: Backend>(
    backend: &mut B,
    scope: &TaskScope,
    conn: &DoltConnection,
    uuid: &str,
) -> (r: Result<(), Failure>)
    ensures
        (final(backend).world(), outcome(r)) == store_user_run(
            old(backend).world(),
            scope@,
            conn@,
            uuid@,
        ),
{
    conn.execute(
        backend,
        "REPLACE INTO config (key_name, value) VALUES (?1, ?2)",
        &argv2("current_user", uuid),
    )?;
    let message = cat("set current user: ", uuid);
    commit_system(backend, scope, message.as_str())
}

// ─── User subcontexts ────────────────────────────────────────────────

/// Recording the user subcontext among the objects of the system database, if
/// its branch was created just now.
pub open spec fn manage_user_run(w: World, env: EnvView, uuid: Text) -> (World, Outcome<()>) {
    let (w, commit) = register_run(w, env, uuid, USER_KIND@);
    match commit {
        Err(e) => (w, Err(e)),
        Ok(None) => (w, Ok(())),
        Ok(Some(commit)) => {
            let (w, scope) = global_scope_run(w, env);
            match scope {
                Err(e) => (w, Err(e)),
                Ok(scope) => {
                    let (w, done) = w.store(
                        StoreCall::InsertObject { scope, uuid, kind: "managed"@, commit },
                    );
                    match done {
                        Err(e) => (w, Err(e)),
                        Ok(_) => commit_system_run(w, scope, "object add: "@ + uuid),
                    }
                },
            }
        },
    }
}

/// Making the user subcontext the current one, if none is.
pub open spec fn default_user_run(w: World, env: EnvView, uuid: Text) -> (World, Outcome<()>) {
    let (w, system) = system_run(w, env);
    match system {
        Err(e) => (w, Err(e)),
        Ok((scope, conn)) => {
            let (w, current) = text_query_run(w, conn, user_query(), Seq::empty());
            match current {
                Err(e) => (w, Err(e)),
                Ok(Some(_)) => (w, Ok(())),
                Ok(None) => {
                    let (w, done) = store_user_run(w, scope, conn, uuid);
                    match done {
                        Err(e) => (w, Err(e)),
                        Ok(_) => (
                            w.note("[subcontext] Set current user to "@ + uuid + "."@),
                            Ok(()),
                        ),
                    }
                },
            }
        },
    }
}

/// Setting up a new user subcontext.
pub open spec fn new_user_run(w: World, env: EnvView, base: Text, fresh: Text) -> (
    World,
    Outcome<Text>,
) {
    let w = w.note("[subcontext] Initializing user subcontext at "@ + base + "..."@);
    let (w, uuid) = setup_run(w, env, base, USER_KIND@, fresh);
    match uuid {
        Err(e) => (w, Err(e)),
        Ok(uuid) => {
            let (w, managed) = manage_user_run(w, env, uuid);
            match managed {
                Err(e) => (w, Err(e)),
                Ok(_) => {
                    let (w, set) = default_user_run(w, env, uuid);
                    match set {
                        Err(e) => (w, Err(e)),
                        Ok(_) => (
                            w.note(
                                "[subcontext] User subcontext installed (UUID: "@ + uuid + ")."@,
                            ),
                            Ok(uuid),
                        ),
                    }
                },
            }
        },
    }
}

/// Installing the user subcontext; a new one gets the UUID `fresh`.
pub open spec fn install_user_run(w: World, env: EnvView, fresh: Text) -> (World, Outcome<Text>) {
    let (w, there) = exists_run(w, env);
    match there {
        Err(e) => (w, Err(e)),
        Ok(false) => (
            w,
            Err(
                failed(
                    "no global (system) subcontext installed — run `subcontext install --global` first"@,
                ),
            ),
        ),
        Ok(true) => {
            let base = user_base(root_of(env)->Ok_0);
            let (w, installed) = w.path_exists(repo_in(base));
            if installed {
                let (w, uuid) = read_uuid_run(w, config_in(base));
                match uuid {
                    Err(e) => (w, Err(e)),
                    Ok(uuid) => (
                        w.note(
                            "[subcontext] User subcontext already installed (UUID: "@ + uuid
                                + ")."@,
                        ),
                        Ok(uuid),
                    ),
                }
            } else {
                new_user_run(w, env, base, fresh)
            }
        },
    }
}

/// Record the user subcontext as a managed child of the system subcontext.
fn manage_user<B: Backend>(backend: &mut B, env: &Env, uuid: &str) -> (r: Result<(), Failure>)
    ensures
        (final(backend).world(), outcome(r)) == manage_user_run(
            old(backend).world(),
            env@,
            uuid@,
        ),
{
    if let Some(commit) = register_child(backend, env, uuid, USER_KIND)? {
        let scope = global_task_scope(backend, env)?;
        backend.store(
            &StoreRequest::InsertObject {
                scope: &scope,
                uuid,
                kind: "managed",
                commit: commit.as_str(),
            },
        )?;
        let message = cat("object add: ", uuid);
        commit_system(backend, &scope, message.as_str())?;
    }
    Ok(())
}

/// Make the user subcontext the current one, if none is.
fn set_default_user<B: Backend>(backend: &mut B, env: &Env, uuid: &str) -> (r: Result<(), Failure>)
    ensures
        (final(backend).world(), outcome(r)) == default_user_run(
            old(backend).world(),
            env@,
            uuid@,
        ),
{
    let (scope, conn) = open_system(backend, env)?;
    let none: [&str; 0] = [];
    assert(none.deep_view() =~= Seq::<Text>::empty());
    let existing = query_text(
        backend,
        &conn,
        "SELECT value FROM config WHERE key_name = 'current_user'",
        &none,
    )?;
    if existing.is_none() {
        store_user(backend, &scope, &conn, uuid)?;
        let line = cat3("[subcontext] Set current user to ", uuid, ".");
        backend.note(line.as_str());
    }
    Ok(())
}

/// Install a user subcontext; a new one gets the UUID `fresh`.
pub fn install_user_with<B: Backend>(backend: &mut B, env: &Env, fresh: &str) -> (r: Result<
    String,
    Failure,
>)
    ensures
        (final(backend).world(), outcome(r)) == install_user_run(
            old(backend).world(),
            env@,
            fresh@,
        ),
{
    if !global_exists(backend, env)? {
        return Err(
            fail(
                "no global (system) subcontext installed — run `subcontext install --global` first",
            ),
        );
    }
    let base = user_dir(env)?;
    let repo = join_path(base.as_str(), "repo");
    if backend.path_exists(repo.as_str()) {
        let cfg = join_path(base.as_str(), "config");
        let uuid = read_project_uuid_at(backend, cfg.as_str())?;
        let line = cat3(
            "[subcontext] User subcontext already installed (UUID: ",
            uuid.as_str(),
            ").",
        );
        backend.note(line.as_str());
        return Ok(uuid);
    }
    let line = cat3(
        "[subcontext] Initializing user subcontext at ",
        base.as_str(),
        "...",
    );
    backend.note(line.as_str());

    // 1 to 7. Set up the repo, its branches and its database.
    let user_uuid = setup(backend, env, base.as_str(), USER_KIND, fresh)?;

    // 8. Register as managed child of the system subcontext.
    manage_user(backend, env, user_uuid.as_str())?;

    // 9. Set as current user if none exists.
    set_default_user(backend, env, user_uuid.as_str())?;

    let line = cat3(
        "[subcontext] User subcontext installed (UUID: ",
        user_uuid.as_str(),
        ").",
    );
    backend.note(line.as_str());
    Ok(user_uuid)
}

/// Install a user subcontext as a managed child of the global (system)
/// subcontext. Returns the user UUID.
pub fn install_user<B: Backend>(backend: &mut B, env: &Env) -> (r: Result<String, Failure>)
    ensures
        exists|fresh: Text|
            is_uuid(fresh) && (final(backend).world(), outcome(r)) == #[trigger] install_user_run(
                old(backend).world(),
                env@,
                fresh,
            ),
{
    let fresh = fresh_uuid();
    install_user_with(backend, env, fresh.as_str())
}

// ─── Current user ────────────────────────────────────────────────────

/// Reading the current user.
pub open spec fn current_user_run(w: World, env: EnvView) -> (World, Outcome<Option<Text>>) {
    let (w, there) = exists_run(w, env);
    match there {
        Err(e) => (w, Err(e)),
        Ok(false) => (w, Ok(None)),
        Ok(true) => {
            let (w, system) = system_run(w, env);
            match system {
                Err(e) => (w, Err(e)),
                Ok((scope, conn)) => text_query_run(w, conn, user_query(), Seq::empty()),
            }
        },
    }
}

/// Get the current user UUID from the system subcontext config.
pub fn get_current_user<B: Backend>(backend: &mut B, env: &Env) -> (r: Result<
    Option<String>,
    Failure,
>)
    ensures
        (final(backend).world(), outcome(r)) == current_user_run(old(backend).world(), env@),
{
    if !global_exists(backend, env)? {
        return Ok(None);
    }
    let (_, conn) = open_system(backend, env)?;
    let none: [&str; 0] = [];
    assert(none.deep_view() =~= Seq::<Text>::empty());
    query_text(
        backend,
        &conn,
        "SELECT value FROM config WHERE key_name = 'current_user'",
        &none,
    )
}

/// Reading the kind of a managed subcontext, `missing` where it tells none.
pub open spec fn kind_run(w: World, repo: Text, uuid: Text, missing: Text) -> (
    World,
    Outcome<Text>,
) {
    let (w, text) = object_text_run(w, repo, uuid);
    match text {
        Err(e) => (w, Err(e)),
        Ok(text) => match json_parsed(text) {
            Err(e) => (w, Err(failed(e))),
            Ok(object) => (
                w,
                Ok(
                    match kind_in(object) {
                        Some(kind) => kind,
                        None => missing,
                    },
                ),
            ),
        },
    }
}

/// Read the kind of a managed subcontext.
pub(crate) fn managed_kind<B: Backend>(backend: &mut B, repo: &str, uuid: &str, missing: &str) -> (r: Result<
    String,
    Failure,
>)
    ensures
        (final(backend).world(), outcome(r)) == kind_run(
            old(backend).world(),
            repo@,
            uuid@,
            missing@,
        ),
{
    let text = object_text(backend, repo, uuid)?;
    let object = match parse_json(text.as_str()) {
        Ok(object) => object,
        Err(e) => {
            return Err(fail(e.as_str()));
        },
    };
    match object_kind(&object) {
        Some(kind) => Ok(kind),
        None => Ok(missing.to_owned()),
    }
}

/// Checking that a UUID is that of a managed user subcontext.
pub open spec fn check_user_run(w: World, repo: Text, uuid: Text) -> (World, Outcome<()>) {
    let (w, known) = has_object_run(w, repo, uuid);
    if !known {
        (
            w,
            Err(failed("UUID "@ + uuid + " is not registered in the system subcontext"@)),
        )
    } else {
        let (w, kind) = kind_run(w, repo, uuid, Seq::empty());
        match kind {
            Err(e) => (w, Err(e)),
            Ok(kind) => if kind == USER_KIND@ {
                (w, Ok(()))
            } else {
                (w, Err(failed("UUID "@ + uuid + " has kind '"@ + kind + "', not 'user'"@)))
            },
        }
    }
}

/// Check that a UUID is that of a managed user subcontext.
fn check_user<B: Backend>(backend: &mut B, repo: &str, uuid: &str) -> (r: Result<(), Failure>)
    ensures
        (final(backend).world(), outcome(r)) == check_user_run(
            old(backend).world(),
            repo@,
            uuid@,
        ),
{
    if !has_object(backend, repo, uuid) {
        let message = cat3("UUID ", uuid, " is not registered in the system subcontext");
        return Err(fail(message.as_str()));
    }
    let none = String::new();
    assert(none@ =~= Seq::<char>::empty());
    let kind = managed_kind(backend, repo, uuid, none.as_str())?;
    if !same(kind.as_str(), USER_KIND) {
        let message = cat5("UUID ", uuid, " has kind '", kind.as_str(), "', not 'user'");
        return Err(fail(message.as_str()));
    }
    Ok(())
}

/// Setting the current user.
pub open spec fn set_user_run(w: World, env: EnvView, uuid: Text) -> (World, Outcome<()>) {
    let (w, there) = exists_run(w, env);
    match there {
        Err(e) => (w, Err(e)),
        Ok(false) => (w, Err(failed("no global (system) subcontext installed"@))),
        Ok(true) => {
            let (w, system) = system_run(w, env);
            match system {
                Err(e) => (w, Err(e)),
                Ok((scope, conn)) => {
                    let repo = repo_in(base_of(root_of(env)->Ok_0));
                    let (w, valid) = check_user_run(w, repo, uuid);
                    match valid {
                        Err(e) => (w, Err(e)),
                        Ok(_) => {
                            let (w, done) = store_user_run(w, scope, conn, uuid);
                            match done {
                                Err(e) => (w, Err(e)),
                                Ok(_) => (
                                    w.note("[subcontext] Current user set to "@ + uuid + "."@),
                                    Ok(()),
                                ),
                            }
                        },
                    }
                },
            }
        },
    }
}

/// Set the current user UUID. Validates that the UUID refers to a user-kind
/// managed subcontext.
pub fn set_current_user<B: Backend>(backend: &mut B, env: &Env, uuid: &str) -> (r: Result<
    (),
    Failure,
>)
    ensures
        (final(backend).world(), outcome(r)) == set_user_run(old(backend).world(), env@, uuid@),
{
    if !global_exists(backend, env)? {
        return Err(fail("no global (system) subcontext installed"));
    }
    let (scope, conn) = open_system(backend, env)?;

    // Verify it's a managed user subcontext by checking the object branch.
    let repo = global_repo_dir(env)?;
    check_user(backend, repo.as_str(), uuid)?;

    store_user(backend, &scope, &conn, uuid)?;
    let line = cat3("[subcontext] Current user set to ", uuid, ".");
    backend.note(line.as_str());
    Ok(())
}

// ─── Parent-child relationships ──────────────────────────────────────

/// Storing the parent of a child that has none, or that same one.
pub open spec fn store_parent_run(
    w: World,
    scope: ScopeView,
    c: DoltView,
    child: Text,
    parent: Text,
) -> (World, Outcome<()>) {
    let (w, existing) = text_query_run(w, c, parent_query(), seq![child]);
    match existing {
        Err(e) => (w, Err(e)),
        Ok(Some(there)) => if there == parent {
            (w, Ok(()))
        } else {
            (
                w,
                Err(
                    failed(
                        "child "@ + child + " already has parent "@ + there + ", cannot set to "@
                            + parent,
                    ),
                ),
            )
        },
        Ok(None) => {
            let (w, done) = c.execute(
                w,
                "INSERT INTO parents (child_uuid, parent_uuid) VALUES (?1, ?2)"@,
                seq![child, parent],
            );
            match done {
                Err(e) => (w, Err(e)),
                Ok(_) => commit_system_run(
                    w,
                    scope,
                    "set parent of "@ + child + " to "@ + parent,
                ),
            }
        },
    }
}

/// Recording the parent of a child.
pub open spec fn set_parent_run(w: World, env: EnvView, child: Text, parent: Text) -> (
    World,
    Outcome<()>,
) {
    let (w, system) = system_run(w, env);
    match system {
        Err(e) => (w, Err(e)),
        Ok((scope, conn)) => store_parent_run(w, scope, conn, child, parent),
    }
}

/// Record that `child_uuid` has `parent_uuid` as its parent in the system DB.
/// A child can only have one parent; re-setting is an error unless the same.
pub fn set_parent<B: Backend>(
    backend: &mut B,
    env: &Env,
    child_uuid: &str,
    parent_uuid: &str,
) -> (r: Result<(), Failure>)
    ensures
        (final(backend).world(), outcome(r)) == set_parent_run(
            old(backend).world(),
            env@,
            child_uuid@,
            parent_uuid@,
        ),
{
    let (scope, conn) = open_system(backend, env)?;
    let existing = query_text(
        backend,
        &conn,
        "SELECT parent_uuid FROM parents WHERE child_uuid = ?1",
        &crate::backend::argv1(child_uuid),
    )?;
    if let Some(there) = existing {
        if same(there.as_str(), parent_uuid) {
            return Ok(());
        }
        let head = cat5(
            "child ",
            child_uuid,
            " already has parent ",
            there.as_str(),
            ", cannot set to ",
        );
        let message = head.concat(parent_uuid);
        return Err(fail(message.as_str()));
    }
    conn.execute(
        backend,
        "INSERT INTO parents (child_uuid, parent_uuid) VALUES (?1, ?2)",
        &argv2(child_uuid, parent_uuid),
    )?;
    let message = cat4("set parent of ", child_uuid, " to ", parent_uuid);
    commit_system(backend, &scope, message.as_str())
}

/// Reading the parent of a child.
pub open spec fn get_parent_run(w: World, env: EnvView, child: Text) -> (
    World,
    Outcome<Option<Text>>,
) {
    let (w, there) = exists_run(w, env);
    match there {
        Err(e) => (w, Err(e)),
        Ok(false) => (w, Ok(None)),
        Ok(true) => {
            let (w, system) = system_run(w, env);
            match system {
                Err(e) => (w, Err(e)),
                Ok((scope, conn)) => text_query_run(w, conn, parent_query(), seq![child]),
            }
        },
    }
}

/// Get the parent UUID of a child from the system DB.
pub fn get_parent<B: Backend>(backend: &mut B, env: &Env, child_uuid: &str) -> (r: Result<
    Option<String>,
    Failure,
>)
    ensures
        (final(backend).world(), outcome(r)) == get_parent_run(
            old(backend).world(),
            env@,
            child_uuid@,
        ),
{
    if !global_exists(backend, env)? {
        return Ok(None);
    }
    let (_, conn) = open_system(backend, env)?;
    query_text(
        backend,
        &conn,
        "SELECT parent_uuid FROM parents WHERE child_uuid = ?1",
        &crate::backend::argv1(child_uuid),
    )
}

// ─── Info helpers ────────────────────────────────────────────────────

/// Get kind of a managed subcontext from its object branch.
pub fn get_managed_kind<B: Backend>(backend: &mut B, env: &Env, uuid: &str) -> (r: Result<
    String,
    Failure,
>)
    ensures
        (final(backend).world(), outcome(r)) == (match root_of(env@) {
            Err(e) => (old(backend).world(), Err(e)),
            Ok(root) => kind_run(old(backend).world(), repo_in(base_of(root)), uuid@, "unknown"@),
        }),
{
    let repo = global_repo_dir(env)?;
    managed_kind(backend, repo.as_str(), uuid, "unknown")
}

/// Get the system subcontext's UUID.
pub fn system_uuid<B: Backend>(backend: &mut B, env: &Env) -> (r: Result<String, Failure>)
    ensures
        (final(backend).world(), outcome(r)) == (match root_of(env@) {
            Err(e) => (old(backend).world(), Err(e)),
            Ok(root) => read_uuid_run(old(backend).world(), config_in(base_of(root))),
        }),
{
    let cfg = global_config_dir(env)?;
    read_project_uuid_at(backend, cfg.as_str())
}

/// Get the system subcontext's kind.
pub fn system_kind<B: Backend>(backend: &mut B, env: &Env) -> (r: Result<String, Failure>)
    ensures
        (final(backend).world(), outcome(r)) == (match root_of(env@) {
            Err(e) => (old(backend).world(), Err(e)),
            Ok(root) => read_kind_run(old(backend).world(), config_in(base_of(root))),
        }),
{
    let cfg = global_config_dir(env)?;
    read_kind_at(backend, cfg.as_str())
}

// ─── Laws ────────────────────────────────────────────────────────────

/// Installing where a global subcontext is leaves it alone: all that is done is
/// to ask, and to tell.
pub proof fn install_leaves_existing_alone(w: World, env: EnvView, fresh: Text)
    requires
        exists_run(w, env).1 == Ok::<bool, Seq<Text>>(true),
    ensures
        install_run(w, env, fresh).1 is Ok,
        install_run(w, env, fresh).0 == exists_run(w, env).0.note(
            "[subcontext] Global subcontext already installed at "@ + base_of(root_of(env)->Ok_0)
                + "."@,
        ),
{
}

/// A child keeps its parent: where it has one, setting the same succeeds,
/// setting another fails, and neither changes anything.
pub proof fn parent_is_kept(
    w: World,
    scope: ScopeView,
    c: DoltView,
    child: Text,
    parent: Text,
    there: Text,
)
    requires
        text_query_run(w, c, parent_query(), seq![child]).1 == Ok::<Option<Text>, Seq<Text>>(
            Some(there),
        ),
    ensures
        store_parent_run(w, scope, c, child, parent).0 == text_query_run(
            w,
            c,
            parent_query(),
            seq![child],
        ).0,
        store_parent_run(w, scope, c, child, parent).1 is Ok <==> there == parent,
{
}

/// Without a global subcontext nothing is registered and nothing recorded: all
/// that is done is to ask whether there is one.
pub proof fn nothing_without_global(w: World, env: EnvView, uuid: Text, kind: Text, path: Text)
    requires
        exists_run(w, env).1 == Ok::<bool, Seq<Text>>(false),
    ensures
        register_run(w, env, uuid, kind) == (
            exists_run(w, env).0,
            Ok::<Option<Text>, Seq<Text>>(None),
        ),
        record_run(w, env, uuid, path) == (
            exists_run(w, env).0,
            Ok::<Option<Text>, Seq<Text>>(None),
        ),
        get_parent_run(w, env, uuid) == (
            exists_run(w, env).0,
            Ok::<Option<Text>, Seq<Text>>(None),
        ),
        current_user_run(w, env) == (exists_run(w, env).0, Ok::<Option<Text>, Seq<Text>>(None)),
{
}

/// Only a managed subcontext of kind `user` becomes the current user: the
/// database is written only once the object branch was found and tells that
/// kind.
pub proof fn only_users_become_current(w: World, repo: Text, uuid: Text)
    ensures
        check_user_run(w, repo, uuid).1 is Ok <==> has_object_run(w, repo, uuid).1 && kind_run(
            has_object_run(w, repo, uuid).0,
            repo,
            uuid,
            Seq::empty(),
        ).1 == Ok::<Text, Seq<Text>>(USER_KIND@),
{
}

} // verus!
