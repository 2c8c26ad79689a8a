//! Attaching an existing context repo to a repository.

use vstd::prelude::*;

use crate::backend::{argv4, Backend, StoreRequest};
use crate::environment::{Env, EnvView};
use crate::failure::{context, contextual, fail, failed, outcome, Failure, Outcome};
use crate::git::{
    current_branch, current_branch_run, overlay_branch_name, overlay_branch_of, repo_dir, repo_path,
    run_subcontext_git, state_dir, state_path, subcontext_dir, subcontext_path, work_dir, work_path,
    Checkout, CheckoutContext,
};
use crate::install::{from_hooks_run, install_from_hooks_with};
use crate::overlay;
use crate::paths::{join_path, path_join};
use crate::project::{fresh_uuid, is_uuid};
use crate::text::{cat3, Text};
use crate::world::{StoreCall, World};

verus! {

/// Adding a worktree of the context repo.
pub open spec fn add_worktree_run(w: World, root: Text, dir: Text, branch: Text) -> (
    World,
    Outcome<Text>,
) {
    w.subcontext_git(seq!["worktree"@, "add"@, dir, branch], root)
}

/// Add a worktree of the context repo.
fn add_worktree<B: Backend>(backend: &mut B, root: &str, dir: &str, branch: &str) -> (r: Result<
    String,
    Failure,
>)
    ensures
        (final(backend).world(), outcome(r)) == add_worktree_run(
            old(backend).world(),
            root@,
            dir@,
            branch@,
        ),
{
    run_subcontext_git(backend, &argv4("worktree", "add", dir, branch), root)
}

/// Cloning the context repo and checking out its config branch.
pub open spec fn fetch_run(w: World, root: Text, url: Text) -> (World, Outcome<()>) {
    let (w, made) = w.create_dir_all(subcontext_path(root));
    match made {
        Err(e) => (w, Err(e)),
        Ok(_) => {
            let w = w.note("[subcontext] Cloning context repo from "@ + url + "..."@);
            let (w, cloned) = w.git(seq!["clone"@, "--bare"@, url, repo_path(root)], root);
            match contextual(cloned, "failed to clone context repo"@) {
                Err(e) => (w, Err(e)),
                Ok(_) => {
                    let (w, added) = add_worktree_run(
                        w,
                        root,
                        path_join(subcontext_path(root), "config"@),
                        "config"@,
                    );
                    match contextual(
                        added,
                        "failed to set up config worktree (does the 'config' branch exist in the remote?)"@,
                    ) {
                        Err(e) => (w, Err(e)),
                        Ok(_) => (w, Ok(())),
                    }
                },
            }
        },
    }
}

/// Checking out the overlay of the current branch, which is created where the
/// context repo does not have it.
pub open spec fn attach_overlay_run(w: World, root: Text) -> (World, Outcome<()>) {
    let (w, name) = current_branch_run(w, root);
    match name {
        Err(e) => (w, Err(e)),
        Ok(name) => {
            let branch = overlay_branch_of(name);
            let (w, there) = overlay::branch_exists_run(w, root, branch);
            let (w, made) = if there {
                (w, Ok(()))
            } else {
                overlay::create_branch_run(w, root, branch)
            };
            match made {
                Err(e) => (w, Err(e)),
                Ok(_) => {
                    let (w, added) = add_worktree_run(w, root, work_path(root), branch);
                    match added {
                        Err(e) => (w, Err(e)),
                        Ok(_) => (w, Ok(())),
                    }
                },
            }
        },
    }
}

/// Checking out the state branch, which is created where the context repo does
/// not have it.
pub open spec fn attach_state_run(w: World, root: Text) -> (World, Outcome<()>) {
    let (w, there) = overlay::branch_exists_run(w, root, "state"@);
    let (w, done) = if there {
        add_worktree_run(w, root, state_path(root), "state"@)
    } else {
        w.store(StoreCall::InitLocalState { root })
    };
    match done {
        Err(e) => (w, Err(e)),
        Ok(_) => (w, Ok(())),
    }
}

/// Cloning a context repo; a project without a configuration gets the UUID
/// `fresh`.
pub open spec fn clone_run(w: World, env: EnvView, root: Text, url: Text, fresh: Text) -> (
    World,
    Outcome<()>,
) {
    let (w, there) = w.path_exists(subcontext_path(root));
    if there {
        (
            w,
            Err(
                failed(
                    ".git/.subcontext/ already exists. Remove it first if you want to clone a fresh context repo."@,
                ),
            ),
        )
    } else {
        let (w, fetched) = fetch_run(w, root, url);
        match fetched {
            Err(e) => (w, Err(e)),
            Ok(_) => {
                let (w, overlaid) = attach_overlay_run(w, root);
                match overlaid {
                    Err(e) => (w, Err(e)),
                    Ok(_) => {
                        let (w, state) = attach_state_run(w, root);
                        match state {
                            Err(e) => (w, Err(e)),
                            Ok(_) => {
                                let (w, applied) = overlay::apply_run(w, Checkout::main_at(root));
                                match applied {
                                    Err(e) => (w, Err(e)),
                                    Ok(_) => {
                                        let (w, done) = from_hooks_run(w, env, root, false, fresh);
                                        match done {
                                            Err(e) => (w, Err(e)),
                                            Ok(_) => (
                                                w.note("[subcontext] Clone complete."@),
                                                Ok(()),
                                            ),
                                        }
                                    },
                                }
                            },
                        }
                    },
                }
            },
        }
    }
}

/// Clone the context repo and check out its config branch.
fn fetch<B: Backend>(backend: &mut B, root: &str, url: &str) -> (r: Result<(), Failure>)
    ensures
        (final(backend).world(), outcome(r)) == fetch_run(old(backend).world(), root@, url@),
{
    let sc_dir = subcontext_dir(root);
    let repo = repo_dir(root);
    backend.create_dir_all(sc_dir.as_str())?;

    // Clone as bare repo
    let line = cat3("[subcontext] Cloning context repo from ", url, "...");
    backend.note(line.as_str());
    context(backend.clone_bare(root, url, repo.as_str()), "failed to clone context repo")?;

    // Set up config worktree
    let cfg = join_path(sc_dir.as_str(), "config");
    context(
        add_worktree(backend, root, cfg.as_str(), "config"),
        "failed to set up config worktree (does the 'config' branch exist in the remote?)",
    )?;
    Ok(())
}

/// Check out the overlay of the current branch.
fn attach_overlay<B: Backend>(backend: &mut B, root: &str) -> (r: Result<(), Failure>)
    ensures
        (final(backend).world(), outcome(r)) == attach_overlay_run(old(backend).world(), root@),
{
    let branch = current_branch(backend, root)?;
    let overlay_branch = overlay_branch_name(branch.as_str());
    if !overlay::overlay_branch_exists(backend, root, overlay_branch.as_str())? {
        overlay::create_overlay_branch(backend, root, overlay_branch.as_str())?;
    }
    let work = work_dir(root);
    add_worktree(backend, root, work.as_str(), overlay_branch.as_str())?;
    Ok(())
}

/// Check out the state branch.
fn attach_state<B: Backend>(backend: &mut B, root: &str) -> (r: Result<(), Failure>)
    ensures
        (final(backend).world(), outcome(r)) == attach_state_run(old(backend).world(), root@),
{
    if overlay::overlay_branch_exists(backend, root, "state")? {
        let state = state_dir(root);
        add_worktree(backend, root, state.as_str(), "state")?;
    } else {
        // Remote did not ship a state branch; create one locally.
        backend.store(&StoreRequest::InitLocalState { root })?;
    }
    Ok(())
}

/// Clone a context repo; a project without a configuration gets the UUID
/// `fresh`.
pub fn clone_with<B: Backend>(backend: &mut B, env: &Env, root: &str, url: &str, fresh: &str) -> (r:
    Result<(), Failure>)
    ensures
        (final(backend).world(), outcome(r)) == clone_run(
            old(backend).world(),
            env@,
            root@,
            url@,
            fresh@,
        ),
{
    let sc_dir = subcontext_dir(root);
    if backend.path_exists(sc_dir.as_str()) {
        return Err(
            fail(
                ".git/.subcontext/ already exists. Remove it first if you want to clone a fresh context repo.",
            ),
        );
    }
    fetch(backend, root, url)?;

    // Set up work/ worktree for current branch's overlay
    attach_overlay(backend, root)?;

    // Set up state worktree if the remote has a state branch
    attach_state(backend, root)?;

    // Apply overlay
    let ctx = CheckoutContext::main_only(root);
    overlay::apply_overlay(backend, &ctx)?;

    // Install hooks, settings, etc.
    install_from_hooks_with(backend, env, root, false, fresh)?;
    backend.note("[subcontext] Clone complete.");
    Ok(())
}

/// Run `subcontext clone <url>` from the given repo root.
pub fn clone<B: Backend>(backend: &mut B, env: &Env, root: &str, url: &str) -> (r: Result<
    (),
    Failure,
>)
    ensures
        exists|fresh: Text|
            is_uuid(fresh) && (final(backend).world(), outcome(r)) == #[trigger] clone_run(
                old(backend).world(),
                env@,
                root@,
                url@,
                fresh,
            ),
{
    let fresh = fresh_uuid();
    clone_with(backend, env, root, url, fresh.as_str())
}

// ─── Laws ────────────────────────────────────────────────────────────

/// A context repo that is there is not overwritten: cloning fails, and all that
/// is done is to ask for it.
pub proof fn clone_keeps_existing(w: World, env: EnvView, root: Text, url: Text, fresh: Text)
    requires
        w.path_exists(subcontext_path(root)).1,
    ensures
        clone_run(w, env, root, url, fresh).0 == w.path_exists(subcontext_path(root)).0,
        clone_run(w, env, root, url, fresh).1 is Err,
{
}

} // verus!
