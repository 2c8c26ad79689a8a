//! Removing a subcontext from a repository.

use vstd::prelude::*;

use crate::agent::{Agent, AgentView};
use crate::backend::{argv3, write_text, Backend};
use crate::environment::{Env, EnvView};
use crate::failure::{context, contextual, outcome, Failure, Outcome};
use crate::git::{config_dir, run_git, subcontext_dir, subcontext_path, Checkout, CheckoutContext};
use crate::hook::old_hook_path;
use crate::install::{dispatcher, hook_file, hook_path};
use crate::json::{document, document_text};
use crate::overlay;
use crate::paths::{join_path, path_join};
use crate::settings::{
    parse_settings, parsed_settings, settings_path, settings_unmerged, unmerge_hook,
};
use crate::text::{cat, cat3, contains, joined, occurs, stands_at, Text};
use crate::world::World;

verus! {

// ─── Hooks ───────────────────────────────────────────────────────────

/// Is the content that of our hook?
pub open spec fn is_ours(content: Text, hook_name: Text) -> bool {
    occurs(content, "subcontext _hook "@ + hook_name) || occurs(
        content,
        "git subcontext _hook "@ + hook_name,
    )
}

/// Putting back the hook that was backed up.
pub open spec fn put_back_run(w: World, root: Text, hook_name: Text) -> (World, Outcome<()>) {
    let path = hook_path(root, hook_name);
    let (w, copied) = w.copy(old_hook_path(root, hook_name), path);
    match contextual(copied, "failed to restore original "@ + hook_name + " hook"@) {
        Err(e) => (w, Err(e)),
        Ok(_) => {
            let (w, set) = w.set_mode(path, 0o755);
            match set {
                Err(e) => (w, Err(e)),
                Ok(_) => (
                    w.note("[subcontext] Restored original "@ + hook_name + " hook."@),
                    Ok(()),
                ),
            }
        },
    }
}

/// Removing our hook where none was backed up.
pub open spec fn remove_hook_run(w: World, root: Text, hook_name: Text) -> (World, Outcome<()>) {
    let (w, removed) = w.remove_file(hook_path(root, hook_name));
    match contextual(removed, "failed to remove "@ + hook_name + " hook"@) {
        Err(e) => (w, Err(e)),
        Ok(_) => (w.note("[subcontext] Removed "@ + hook_name + " hook."@), Ok(())),
    }
}

/// Taking our hook out: only where it is ours, and with the backed-up one in its
/// place where there is one.
pub open spec fn restore_hook_run(w: World, root: Text, hook_name: Text) -> (World, Outcome<()>) {
    let path = hook_path(root, hook_name);
    let (w, there) = w.path_exists(path);
    if !there {
        (w, Ok(()))
    } else {
        let (w, content) = w.read(path);
        let content = match content {
            Ok(content) => content,
            Err(_) => Seq::empty(),
        };
        if !is_ours(content, hook_name) {
            (
                w.note("[subcontext] "@ + hook_name + " hook is not ours — skipping."@),
                Ok(()),
            )
        } else {
            let (w, kept) = w.path_exists(old_hook_path(root, hook_name));
            if kept {
                put_back_run(w, root, hook_name)
            } else {
                remove_hook_run(w, root, hook_name)
            }
        }
    }
}

/// Remove the subcontext hook dispatcher and restore the original hook if backed up.
pub fn restore_hook<B: Backend>(backend: &mut B, root: &str, hook_name: &str) -> (r: Result<
    (),
    Failure,
>)
    ensures
        (final(backend).world(), outcome(r)) == restore_hook_run(
            old(backend).world(),
            root@,
            hook_name@,
        ),
{
    let path = hook_file(root, hook_name);
    if !backend.path_exists(path.as_str()) {
        return Ok(());
    }
    // Only touch the hook if it's ours

    let content = match backend.read_to_string(path.as_str()) {
        Ok(content) => content,
        Err(_) => String::new(),
    };
    let call = cat("subcontext _hook ", hook_name);
    let git_call = cat("git subcontext _hook ", hook_name);
    if !contains(content.as_str(), call.as_str()) && !contains(
        content.as_str(),
        git_call.as_str(),
    ) {
        let line = cat3("[subcontext] ", hook_name, " hook is not ours — skipping.");
        backend.note(line.as_str());
        return Ok(());
    }
    let cfg = config_dir(root);
    let hooks = join_path(cfg.as_str(), "hooks");
    let backups = join_path(hooks.as_str(), "old");
    let backup_path = join_path(backups.as_str(), hook_name);
    if backend.path_exists(backup_path.as_str()) {
        let message = cat3("failed to restore original ", hook_name, " hook");
        context(backend.copy(backup_path.as_str(), path.as_str()), message.as_str())?;
        backend.set_permissions_mode(path.as_str(), 0o755)?;
        let line = cat3("[subcontext] Restored original ", hook_name, " hook.");
        backend.note(line.as_str());
    } else {
        let message = cat3("failed to remove ", hook_name, " hook");
        context(backend.remove_file(path.as_str()), message.as_str())?;
        let line = cat3("[subcontext] Removed ", hook_name, " hook.");
        backend.note(line.as_str());
    }
    Ok(())
}

// ─── Alias and settings ──────────────────────────────────────────────

/// Removing the git alias.
pub open spec fn remove_alias_run(w: World, root: Text) -> World {
    let (w, done) = w.git(seq!["config"@, "--unset"@, "alias.subcontext"@], root);
    match done {
        Ok(_) => w.note("[subcontext] Removed git alias."@),
        Err(_) => w,
    }
}

/// Remove the `git subcontext` alias from local git config.
pub fn remove_git_alias<B: Backend>(backend: &mut B, root: &str)
    ensures
        final(backend).world() == remove_alias_run(old(backend).world(), root@),
{
    // alias may not exist, so ignore errors
    if run_git(backend, &argv3("config", "--unset", "alias.subcontext"), root).is_ok() {
        backend.note("[subcontext] Removed git alias.");
    }
}

/// Taking our hook out of the settings of the agent harness.
pub open spec fn remove_settings_run(w: World, agent: AgentView, root: Text) -> (
    World,
    Outcome<()>,
) {
    let path = settings_path(agent, root);
    let (w, there) = w.path_exists(path);
    if !there {
        (w, Ok(()))
    } else {
        let (w, content) = w.read(path);
        match contextual(content, "failed to read "@ + agent.settings_name()) {
            Err(e) => (w, Err(e)),
            Ok(content) => match parsed_settings(agent, content) {
                Err(e) => (w, Err(e)),
                Ok(settings) => match settings_unmerged(agent, settings) {
                    None => (w, Ok(())),
                    Some(settings) => {
                        let (w, written) = w.write(path, document_text(settings));
                        match contextual(written, "failed to write "@ + agent.settings_name()) {
                            Err(e) => (w, Err(e)),
                            Ok(_) => (
                                w.note(
                                    "[subcontext] Removed SessionStart hook from "@ + agent.title
                                        + " settings."@,
                                ),
                                Ok(()),
                            ),
                        }
                    },
                },
            },
        }
    }
}

/// Remove the subcontext SessionStart hook from the settings of the
/// agent harness.
pub fn remove_claude_settings<B: Backend>(backend: &mut B, agent: &Agent, root: &str) -> (r: Result<
    (),
    Failure,
>)
    ensures
        (final(backend).world(), outcome(r)) == remove_settings_run(
            old(backend).world(),
            agent@,
            root@,
        ),
{
    let dir = join_path(root, agent.dir().as_str());
    let path = join_path(dir.as_str(), "settings.local.json");
    let name = agent.settings_name();
    if !backend.path_exists(path.as_str()) {
        return Ok(());
    }
    let message = cat("failed to read ", name.as_str());
    let content = context(backend.read_to_string(path.as_str()), message.as_str())?;
    let settings = parse_settings(agent, content.as_str())?;
    if let Some(settings) = unmerge_hook(agent, settings) {
        let formatted = document(&settings);
        let message = cat("failed to write ", name.as_str());
        context(write_text(backend, path.as_str(), formatted.as_str()), message.as_str())?;
        let line = cat3(
            "[subcontext] Removed SessionStart hook from ",
            agent.title.as_str(),
            " settings.",
        );
        backend.note(line.as_str());
    }
    Ok(())
}

// ─── Uninstalling ────────────────────────────────────────────────────

/// Removing a directory, where it is there.
pub open spec fn drop_dir_run(w: World, dir: Text) -> World {
    let (w, there) = w.path_exists(dir);
    if there {
        w.remove_dir_all(dir).0
    } else {
        w
    }
}

/// Remove a directory, where it is there.
fn drop_dir<B: Backend>(backend: &mut B, dir: &str)
    ensures
        final(backend).world() == drop_dir_run(old(backend).world(), dir@),
{
    if backend.path_exists(dir) {
        let _ = backend.remove_dir_all(dir);
    }
}

/// Removing the context repo with its worktrees.
pub open spec fn drop_repo_run(w: World, root: Text) -> World {
    let dir = subcontext_path(root);
    let w = drop_dir_run(w, path_join(dir, "work"@));
    let w = drop_dir_run(w, path_join(dir, "config"@));
    let w = drop_dir_run(w, path_join(dir, "state"@));
    let w = drop_dir_run(w, path_join(dir, "pool"@));
    w.remove_dir_all(dir).0
}

/// Unapplying the overlay; that it fails is told.
pub open spec fn unapplied(w: World, c: Checkout) -> World {
    let (w, done) = overlay::unapply_run(w, c);
    match done {
        Ok(_) => w,
        Err(e) => w.note(
            "[subcontext] warning: failed to unapply overlay: "@ + joined(e, ": "@),
        ),
    }
}

/// What an uninstallation does before the context repo goes.
pub open spec fn detach_run(w: World, env: EnvView, root: Text) -> (World, Outcome<()>) {
    let w = unapplied(w, Checkout::main_at(root));
    let (w, first) = restore_hook_run(w, root, "post-checkout"@);
    match first {
        Err(e) => (w, Err(e)),
        Ok(_) => {
            let (w, second) = restore_hook_run(w, root, "post-commit"@);
            match second {
                Err(e) => (w, Err(e)),
                Ok(_) => {
                    let w = remove_alias_run(w, root);
                    let (w, settings) = remove_settings_run(w, env.agent, root);
                    match settings {
                        Err(e) => (w, Err(e)),
                        Ok(_) => overlay::clean_run(w, root),
                    }
                },
            }
        },
    }
}

/// Uninstalling a subcontext.
pub open spec fn uninstall_run(w: World, env: EnvView, root: Text) -> (World, Outcome<()>) {
    let (w, there) = w.path_exists(subcontext_path(root));
    if !there {
        (
            w.note("[subcontext] No .git/.subcontext/ found — nothing to uninstall."@),
            Ok(()),
        )
    } else {
        let (w, detached) = detach_run(w, env, root);
        match detached {
            Err(e) => (w, Err(e)),
            Ok(_) => (
                drop_repo_run(w, root).note("[subcontext] Uninstall complete."@),
                Ok(()),
            ),
        }
    }
}

/// Do what comes before the context repo goes.
fn detach<B: Backend>(backend: &mut B, env: &Env, root: &str) -> (r: Result<(), Failure>)
    ensures
        (final(backend).world(), outcome(r)) == detach_run(old(backend).world(), env@, root@),
{
    // Step 1: Unapply overlay (remove overlay files from root, restore both-repo files)
    let ctx = CheckoutContext::main_only(root);
    if let Err(e) = overlay::unapply_overlay(backend, &ctx) {
        let chain = e.chain_text();
        let line = cat("[subcontext] warning: failed to unapply overlay: ", chain.as_str());
        backend.note(line.as_str());
    }
    // Step 2: Restore or remove hooks

    restore_hook(backend, root, "post-checkout")?;
    restore_hook(backend, root, "post-commit")?;

    // Step 3: Remove git alias
    remove_git_alias(backend, root);

    // Step 4: Remove subcontext entry from the settings of the harness
    remove_claude_settings(backend, &env.agent, root)?;

    // Step 5: Clean up all subcontext excludes (including worktree sections)
    overlay::clean_all_excludes(backend, root)
}

/// Run `subcontext uninstall` from the given repo root.
pub fn uninstall<B: Backend>(backend: &mut B, env: &Env, root: &str) -> (r: Result<(), Failure>)
    ensures
        (final(backend).world(), outcome(r)) == uninstall_run(old(backend).world(), env@, root@),
{
    let sc_dir = subcontext_dir(root);
    if !backend.path_exists(sc_dir.as_str()) {
        backend.note("[subcontext] No .git/.subcontext/ found — nothing to uninstall.");
        return Ok(());
    }
    detach(backend, env, root)?;

    // Step 6: Remove .git/.subcontext/
    // First remove worktrees, then the directory
    let work = join_path(sc_dir.as_str(), "work");
    let config = join_path(sc_dir.as_str(), "config");
    let state = join_path(sc_dir.as_str(), "state");
    let pool = join_path(sc_dir.as_str(), "pool");
    drop_dir(backend, work.as_str());
    drop_dir(backend, config.as_str());
    drop_dir(backend, state.as_str());
    drop_dir(backend, pool.as_str());
    let _ = backend.remove_dir_all(sc_dir.as_str());
    backend.note("[subcontext] Uninstall complete.");
    Ok(())
}

// ─── Laws ────────────────────────────────────────────────────────────

/// Uninstalling where nothing is installed does nothing but tell so.
pub proof fn nothing_to_uninstall(w: World, env: EnvView, root: Text)
    requires
        !w.path_exists(subcontext_path(root)).1,
    ensures
        uninstall_run(w, env, root) == (
            w.path_exists(subcontext_path(root)).0.note(
                "[subcontext] No .git/.subcontext/ found — nothing to uninstall."@,
            ),
            Ok::<(), Seq<Text>>(()),
        ),
{
}

/// A hook that is not ours is left alone: it is looked for, read, and that is
/// told.
pub proof fn foreign_hook_is_left(w: World, root: Text, hook_name: Text, content: Text)
    requires
        w.path_exists(hook_path(root, hook_name)).1,
        w.path_exists(hook_path(root, hook_name)).0.read(hook_path(root, hook_name)).1 == Ok::<
            Text,
            Seq<Text>,
        >(content),
        !is_ours(content, hook_name),
    ensures
        restore_hook_run(w, root, hook_name) == (
            w.path_exists(hook_path(root, hook_name)).0.read(hook_path(root, hook_name)).0.note(
                "[subcontext] "@ + hook_name + " hook is not ours — skipping."@,
            ),
            Ok::<(), Seq<Text>>(()),
        ),
{
}

/// A hook that was installed is known as ours when it is to be removed.
pub proof fn dispatcher_is_ours(hook_name: Text)
    ensures
        is_ours(dispatcher(hook_name), hook_name),
{
    let head = "#!/bin/sh\n# Installed by subcontext. Dispatches to `git subcontext _hook "@;
    let call = "subcontext _hook "@;
    reveal_strlit("#!/bin/sh\n# Installed by subcontext. Dispatches to `git subcontext _hook ");
    reveal_strlit("subcontext _hook ");
    let at = head.len() - call.len();
    let whole = dispatcher(hook_name);
    let part = call + hook_name;
    assert(head.subrange(at, head.len() as int) =~= call);
    assert(whole.subrange(at, at + part.len()) =~= part);
    assert(stands_at(whole, part, at));
}

} // verus!
