//! The git hooks: keeping the overlay in step with the host repository.

use vstd::prelude::*;

use crate::backend::{argv3, Backend};
use crate::failure::{context, contextual, fail, failed, outcome, Failure, Outcome};
use crate::git::{
    config_dir, config_path, current_branch, current_branch_run, overlay_branch_name,
    overlay_branch_of, run_git, subcontext_dir, subcontext_path, Checkout, CheckoutContext,
};
use crate::overlay;
use crate::paths::{join_path, path_join};
use crate::text::{cat, cat4, joined, same, Text};
use crate::world::World;

verus! {

/// The name that git gives to no commit.
pub open spec fn null_sha() -> Text {
    "0000000000000000000000000000000000000000"@
}

// ─── Old hooks ───────────────────────────────────────────────────────

/// Where the user's own hook was backed up to.
pub open spec fn old_hook_path(main_root: Text, hook_name: Text) -> Text {
    path_join(path_join(path_join(config_path(main_root), "hooks"@), "old"@), hook_name)
}

/// Running a backed-up hook: nothing happens where there is none or it may not
/// be executed; its failure is a failure.
pub open spec fn old_hook_run(w: World, main_root: Text, hook_name: Text, args: Seq<Text>) -> (
    World,
    Outcome<()>,
) {
    let path = old_hook_path(main_root, hook_name);
    let (w, there) = w.path_exists(path);
    if !there {
        (w, Ok(()))
    } else {
        let (w, mode) = w.metadata_mode(path);
        match mode {
            Err(e) => (w, Err(e)),
            Ok(mode) => if mode & 0o111 == 0 {
                (w, Ok(()))
            } else {
                let (w, exit) = w.run_command(path, args, main_root);
                match contextual(exit, "failed to run old hook: "@ + path) {
                    Err(e) => (w, Err(e)),
                    Ok(exit) => if exit.success {
                        (w, Ok(()))
                    } else {
                        (
                            w,
                            Err(
                                failed(
                                    "old "@ + hook_name + " hook exited with "@ + exit.text,
                                ),
                            ),
                        )
                    },
                }
            },
        }
    }
}

/// Run the old hook if it was backed up.
pub fn run_old_hook<B: Backend>(
    backend: &mut B,
    main_root: &str,
    hook_name: &str,
    args: &[&str],
) -> (r: Result<(), Failure>)
    ensures
        (final(backend).world(), outcome(r)) == old_hook_run(
            old(backend).world(),
            main_root@,
            hook_name@,
            args.deep_view(),
        ),
{
    let config = config_dir(main_root);
    let hooks = join_path(config.as_str(), "hooks");
    let backups = join_path(hooks.as_str(), "old");
    let old_hook = join_path(backups.as_str(), hook_name);

    if !backend.path_exists(old_hook.as_str()) {
        return Ok(());
    }
    let mode: u32 = backend.metadata_mode(old_hook.as_str())?;
    if mode & 0o111 == 0 {
        return Ok(());
    }
    let message = cat("failed to run old hook: ", old_hook.as_str());
    let status = context(
        backend.run_command(old_hook.as_str(), args, main_root),
        message.as_str(),
    )?;
    if !status.success {
        let message = cat4("old ", hook_name, " hook exited with ", status.text.as_str());
        return Err(fail(message.as_str()));
    }
    Ok(())
}

// ─── post-checkout ───────────────────────────────────────────────────

/// The fork source that the overlay branch `src` of this checkout gives: itself
/// where the two commits are the same, one of them is none, or git finds a
/// common ancestor.
pub open spec fn related_run(w: World, c: Checkout, prev: Text, new: Text, src: Text) -> (
    World,
    Option<Text>,
) {
    if prev == new || prev == null_sha() || new == null_sha() {
        (w, Some(src))
    } else {
        let (w, base) = w.git(seq!["merge-base"@, prev, new], c.checkout_root);
        (
            w,
            if base is Ok {
                Some(src)
            } else {
                None
            },
        )
    }
}

/// The fork source where this checkout gives none: a linked worktree takes the
/// overlay of the main checkout.
pub open spec fn main_source_run(w: World, c: Checkout) -> (World, Option<Text>) {
    if c.worktree_name is Some {
        overlay::main_overlay_run(w, c.main_root)
    } else {
        (w, None)
    }
}

/// Finding what a new overlay branch forks from.
pub open spec fn fork_source_run(
    w: World,
    c: Checkout,
    prev: Text,
    new: Text,
    prev_overlay: Option<Text>,
) -> (World, Option<Text>) {
    let (w, head) = w.git(seq!["rev-parse"@, "--verify"@, "HEAD"@], c.checkout_root);
    if head is Err {
        (w, None)
    } else {
        match prev_overlay {
            None => main_source_run(w, c),
            Some(src) => {
                let (w, there) = overlay::branch_exists_run(w, c.main_root, src);
                if there {
                    related_run(w, c, prev, new, src)
                } else {
                    main_source_run(w, c)
                }
            },
        }
    }
}

/// Determine whether a new overlay branch should fork from an existing one.
/// Returns Some(source_branch) to fork, or None to create empty.
pub fn determine_fork_source<B: Backend>(
    backend: &mut B,
    ctx: &CheckoutContext,
    prev: &str,
    new: &str,
    prev_overlay: &Option<String>,
) -> (r: Result<Option<String>, Failure>)
    ensures
        ({
            let (w, source) = fork_source_run(
                old(backend).world(),
                ctx@,
                prev@,
                new@,
                prev_overlay.deep_view(),
            );
            (final(backend).world(), outcome(r)) == (w, Ok::<Option<Text>, Seq<Text>>(source))
        }),
{
    // Orphan: unborn HEAD (git checkout --orphan): always empty
    if run_git(
        backend,
        &argv3("rev-parse", "--verify", "HEAD"),
        ctx.checkout_root.as_str(),
    ).is_err() {
        return Ok(None);
    }
    // If we have a previous overlay branch from this checkout, check ancestry

    if let Some(src) = prev_overlay {
        if overlay::overlay_branch_exists(backend, ctx.main_root.as_str(), src.as_str())? {
            // Same commit (checkout -b): fork
            if same(prev, new) {
                return Ok(Some(src.clone()));
            }
            // No previous or no new commit: fork

            if same(prev, "0000000000000000000000000000000000000000") || same(
                new,
                "0000000000000000000000000000000000000000",
            ) {
                return Ok(Some(src.clone()));
            }
            // Check if branches share a common ancestor

            if run_git(
                backend,
                &argv3("merge-base", prev, new),
                ctx.checkout_root.as_str(),
            ).is_ok() {
                return Ok(Some(src.clone()));
            }
            // Unrelated branches (e.g., checkout to an orphan branch): empty

            return Ok(None);
        }
    }
    // No previous overlay (e.g., new worktree). Try the main checkout's overlay.

    if ctx.is_worktree() {
        return overlay::main_checkout_overlay_branch(backend, ctx.main_root.as_str());
    }
    Ok(None)
}

/// Leaving the overlay of the previous branch: its branch is asked for, then it
/// is saved and unapplied, and what survived the checkout is copied back.
pub open spec fn leave_run(w: World, c: Checkout) -> (World, Outcome<Option<Text>>) {
    let (w, branch) = overlay::branch_at_run(w, c.overlay_work());
    let (w, saved) = overlay::save_run(w, c, "auto-save (pre-checkout)"@);
    match saved {
        Err(e) => (w, Err(e)),
        Ok(_) => {
            let (w, unapplied) = overlay::unapply_run(w, c);
            match unapplied {
                Err(e) => (w, Err(e)),
                Ok(_) => {
                    let (w, synced) = overlay::sync_back_run(w, c);
                    match synced {
                        Err(e) => (w, Err(e)),
                        Ok(_) => (w, Ok(branch)),
                    }
                },
            }
        },
    }
}

/// Creating the overlay branch `branch` where it does not exist: forked from the
/// source that was found, else empty.
pub open spec fn ensure_branch_run(
    w: World,
    c: Checkout,
    branch: Text,
    prev: Text,
    new: Text,
    prev_overlay: Option<Text>,
) -> (World, Outcome<()>) {
    let (w, there) = overlay::branch_exists_run(w, c.main_root, branch);
    if there {
        (w, Ok(()))
    } else {
        let (w, source) = fork_source_run(w, c, prev, new, prev_overlay);
        match source {
            Some(src) => overlay::fork_branch_run(w, c.main_root, branch, src),
            None => overlay::create_branch_run(w, c.main_root, branch),
        }
    }
}

/// Going to the overlay of the current branch of the host, then applying it.
pub open spec fn enter_run(
    w: World,
    c: Checkout,
    prev: Text,
    new: Text,
    work_exists: bool,
    prev_overlay: Option<Text>,
) -> (World, Outcome<()>) {
    let (w, name) = current_branch_run(w, c.checkout_root);
    match name {
        Err(e) => (w, Err(e)),
        Ok(name) => {
            let branch = overlay_branch_of(name);
            let (w, made) = ensure_branch_run(w, c, branch, prev, new, prev_overlay);
            match made {
                Err(e) => (w, Err(e)),
                Ok(_) => {
                    let (w, ready) = if work_exists {
                        overlay::switch_run(w, c, branch)
                    } else {
                        overlay::create_work_run(w, c, branch)
                    };
                    match ready {
                        Err(e) => (w, Err(e)),
                        Ok(_) => overlay::apply_run(w, c),
                    }
                },
            }
        },
    }
}

/// What a checkout of the host has the overlay do.
pub open spec fn checkout_run(w: World, c: Checkout, prev: Text, new: Text, flag: Text) -> (
    World,
    Outcome<()>,
) {
    if flag == "0"@ {
        (w, Ok(()))
    } else {
        let (w, there) = w.path_exists(subcontext_path(c.main_root));
        if !there {
            (w, Ok(()))
        } else {
            let (w, work_exists) = w.path_exists(c.overlay_work());
            if work_exists {
                let (w, left) = leave_run(w, c);
                match left {
                    Err(e) => (w, Err(e)),
                    Ok(prev_overlay) => enter_run(w, c, prev, new, true, prev_overlay),
                }
            } else {
                enter_run(w, c, prev, new, false, None)
            }
        }
    }
}

/// Leave the overlay of the previous branch.
fn leave<B: Backend>(backend: &mut B, ctx: &CheckoutContext) -> (r: Result<Option<String>, Failure>)
    ensures
        (final(backend).world(), outcome(r)) == leave_run(old(backend).world(), ctx@),
{
    // 1. Save and capture the current branch
    let branch = overlay::current_work_branch(backend, ctx)?;
    overlay::save_overlay(backend, ctx, "auto-save (pre-checkout)")?;
    overlay::unapply_overlay(backend, ctx)?;

    // 2. Sync back overlay-only files that survived the host checkout
    overlay::sync_back_surviving_files(backend, ctx)?;
    Ok(branch)
}

/// What a checkout of the host has the overlay do: the overlay of the branch
/// that was left is saved and taken away, that of the new branch is applied.
pub fn post_checkout_inner<B: Backend>(
    backend: &mut B,
    ctx: &CheckoutContext,
    prev: &str,
    new: &str,
    flag: &str,
) -> (r: Result<(), Failure>)
    ensures
        (final(backend).world(), outcome(r)) == checkout_run(
            old(backend).world(),
            ctx@,
            prev@,
            new@,
            flag@,
        ),
{
    // File checkout (flag=0): no action needed
    if same(flag, "0") {
        return Ok(());
    }
    let sc_dir = subcontext_dir(ctx.main_root.as_str());
    if !backend.path_exists(sc_dir.as_str()) {
        return Ok(());
    }
    let work = ctx.overlay_work_dir();
    let work_exists = backend.path_exists(work.as_str());

    // 1 and 2. If we have an existing overlay work dir, leave its branch
    let prev_overlay_branch = if work_exists {
        leave(backend, ctx)?
    } else {
        None
    };

    // 3. Determine new overlay branch
    let branch = current_branch(backend, ctx.checkout_root.as_str())?;
    let overlay_branch = overlay_branch_name(branch.as_str());

    // 4. Create overlay branch if needed, from its fork source
    if !overlay::overlay_branch_exists(backend, ctx.main_root.as_str(), overlay_branch.as_str())? {
        let source = determine_fork_source(backend, ctx, prev, new, &prev_overlay_branch)?;
        match source {
            Some(src) => {
                overlay::create_overlay_branch_from(
                    backend,
                    ctx.main_root.as_str(),
                    overlay_branch.as_str(),
                    src.as_str(),
                )?;
            },
            None => {
                overlay::create_overlay_branch(
                    backend,
                    ctx.main_root.as_str(),
                    overlay_branch.as_str(),
                )?;
            },
        }
    }
    // 5. Create or switch the work directory

    if work_exists {
        overlay::switch_work_branch(backend, ctx, overlay_branch.as_str())?;
    } else {
        overlay::create_overlay_work_dir(backend, ctx, overlay_branch.as_str())?;
    }

    // 6. Apply new overlay (also syncs excludes)
    overlay::apply_overlay(backend, ctx)
}

/// The line that tells of a hook that failed.
pub open spec fn hook_warning(hook_name: Text, e: Seq<Text>) -> Text {
    "[subcontext] warning: "@ + hook_name + " hook failed: "@ + joined(e, ": "@)
}

/// The world once a failure, if there was one, was told.
pub open spec fn told(w: World, hook_name: Text, done: Outcome<()>) -> World {
    match done {
        Ok(_) => w,
        Err(e) => w.note(hook_warning(hook_name, e)),
    }
}

/// Tell of the failure of a hook.
fn tell<B: Backend>(backend: &mut B, hook_name: &str, done: Result<(), Failure>)
    ensures
        final(backend).world() == told(old(backend).world(), hook_name@, outcome(done)),
{
    if let Err(e) = done {
        let chain = e.chain_text();
        let line = cat4("[subcontext] warning: ", hook_name, " hook failed: ", chain.as_str());
        backend.note(line.as_str());
    }
}

/// Handle `subcontext _hook post-checkout <prev> <new> <flag>`.
/// Subcontext's own errors are swallowed (told to the user, exits 0).
/// Old hook failures are propagated so the user sees them.
pub fn post_checkout<B: Backend>(
    backend: &mut B,
    ctx: &CheckoutContext,
    prev: &str,
    new: &str,
    flag: &str,
) -> (r: Result<(), Failure>)
    ensures
        ({
            let (w, done) = checkout_run(old(backend).world(), ctx@, prev@, new@, flag@);
            (final(backend).world(), outcome(r)) == old_hook_run(
                told(w, "post-checkout"@, done),
                ctx@.main_root,
                "post-checkout"@,
                seq![prev@, new@, flag@],
            )
        }),
{
    let done = post_checkout_inner(backend, ctx, prev, new, flag);
    tell(backend, "post-checkout", done);

    // Old hook always runs and its failures propagate.
    run_old_hook(backend, ctx.main_root.as_str(), "post-checkout", &argv3(prev, new, flag))
}

// ─── post-commit ─────────────────────────────────────────────────────

/// What a commit of the host has the overlay do: it is saved.
pub open spec fn commit_run(w: World, c: Checkout) -> (World, Outcome<()>) {
    let (w, there) = w.path_exists(subcontext_path(c.main_root));
    if !there {
        (w, Ok(()))
    } else {
        overlay::save_run(w, c, "auto-save (post-commit)"@)
    }
}

/// What a commit of the host has the overlay do.
pub fn post_commit_inner<B: Backend>(backend: &mut B, ctx: &CheckoutContext) -> (r: Result<
    (),
    Failure,
>)
    ensures
        (final(backend).world(), outcome(r)) == commit_run(old(backend).world(), ctx@),
{
    let sc_dir = subcontext_dir(ctx.main_root.as_str());
    if !backend.path_exists(sc_dir.as_str()) {
        return Ok(());
    }
    overlay::save_overlay(backend, ctx, "auto-save (post-commit)")
}

/// Handle `subcontext _hook post-commit`.
pub fn post_commit<B: Backend>(backend: &mut B, ctx: &CheckoutContext) -> (r: Result<(), Failure>)
    ensures
        ({
            let (w, done) = commit_run(old(backend).world(), ctx@);
            (final(backend).world(), outcome(r)) == old_hook_run(
                told(w, "post-commit"@, done),
                ctx@.main_root,
                "post-commit"@,
                Seq::empty(),
            )
        }),
{
    let done = post_commit_inner(backend, ctx);
    tell(backend, "post-commit", done);
    let none: [&str; 0] = [];
    assert(none.deep_view() =~= Seq::<Text>::empty());
    run_old_hook(backend, ctx.main_root.as_str(), "post-commit", &none)
}

// ─── Laws ────────────────────────────────────────────────────────────

/// A checkout of files (flag `0`) asks nothing of the outside for the overlay
/// and cannot fail.
pub proof fn file_checkout_is_inert(w: World, c: Checkout, prev: Text, new: Text)
    ensures
        checkout_run(w, c, prev, new, "0"@) == (w, Ok::<(), Seq<Text>>(())),
{
}

/// A hook never stands in the way of git: whatever goes wrong with the overlay,
/// it fails only where the user's own hook is there and its mode cannot be
/// read, it cannot be run, or it fails itself.
pub proof fn only_an_old_hook_fails(w: World, main_root: Text, hook_name: Text, args: Seq<Text>)
    ensures
        ({
            let path = old_hook_path(main_root, hook_name);
            let (w1, there) = w.path_exists(path);
            let (w2, mode) = w1.metadata_mode(path);
            let (w3, exit) = w2.run_command(path, args, main_root);
            old_hook_run(w, main_root, hook_name, args).1 is Err <==> there && (mode is Err || (
            mode->Ok_0 & 0o111 != 0 && (exit is Err || !exit->Ok_0.success)))
        }),
{
}

/// A new overlay branch forks only from a branch that the context repo has.
pub proof fn fork_source_exists(
    w: World,
    c: Checkout,
    prev: Text,
    new: Text,
    prev_overlay: Option<Text>,
)
    ensures
        ({
            let source = fork_source_run(w, c, prev, new, prev_overlay).1;
            let w1 = w.git(seq!["rev-parse"@, "--verify"@, "HEAD"@], c.checkout_root).0;
            let w2 = match prev_overlay {
                Some(src) => overlay::branch_exists_run(w1, c.main_root, src).0,
                None => w1,
            };
            let w3 = overlay::branch_at_run(w2, crate::git::work_path(c.main_root)).0;
            source is Some ==> {
                ||| prev_overlay == source && overlay::branch_exists_run(
                    w1,
                    c.main_root,
                    source->0,
                ).1
                ||| c.worktree_name is Some && overlay::branch_exists_run(
                    w3,
                    c.main_root,
                    source->0,
                ).1
            }
        }),
{
}

/// A new branch at the same commit forks the overlay of the branch it was made
/// on.
pub proof fn new_branch_forks_its_overlay(w: World, c: Checkout, commit: Text, src: Text)
    requires
        w.git(seq!["rev-parse"@, "--verify"@, "HEAD"@], c.checkout_root).1 is Ok,
        ({
            let w1 = w.git(seq!["rev-parse"@, "--verify"@, "HEAD"@], c.checkout_root).0;
            overlay::branch_exists_run(w1, c.main_root, src).1
        }),
    ensures
        fork_source_run(w, c, commit, commit, Some(src)).1 == Some(src),
{
}

/// A branch without a commit gets an empty overlay.
pub proof fn orphan_branch_starts_empty(
    w: World,
    c: Checkout,
    prev: Text,
    new: Text,
    prev_overlay: Option<Text>,
)
    requires
        w.git(seq!["rev-parse"@, "--verify"@, "HEAD"@], c.checkout_root).1 is Err,
    ensures
        fork_source_run(w, c, prev, new, prev_overlay).1 is None,
{
}

/// A new worktree forks the overlay of the main checkout, where that has one.
pub proof fn new_worktree_forks_the_main_overlay(w: World, c: Checkout, prev: Text, new: Text)
    requires
        c.worktree_name is Some,
        w.git(seq!["rev-parse"@, "--verify"@, "HEAD"@], c.checkout_root).1 is Ok,
    ensures
        ({
            let w1 = w.git(seq!["rev-parse"@, "--verify"@, "HEAD"@], c.checkout_root).0;
            fork_source_run(w, c, prev, new, None) == overlay::main_overlay_run(w1, c.main_root)
        }),
{
}

/// An overlay branch that is there is used as it is: it is only asked for.
pub proof fn existing_overlay_branch_is_kept(
    w: World,
    c: Checkout,
    branch: Text,
    prev: Text,
    new: Text,
    prev_overlay: Option<Text>,
)
    requires
        overlay::branch_exists_run(w, c.main_root, branch).1,
    ensures
        ensure_branch_run(w, c, branch, prev, new, prev_overlay) == (
            overlay::branch_exists_run(w, c.main_root, branch).0,
            Ok::<(), Seq<Text>>(()),
        ),
{
}

} // verus!
