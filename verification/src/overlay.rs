//! The overlay: files of the context repo that are laid over a checkout.

use vstd::prelude::*;

use crate::backend::{argv1, argv2, argv3, argv4, write_text, Backend};
use crate::excludes::{clean_excludes, cleaned, excludes_with, synced};
use crate::failure::{context, contextual, fail, failed, outcome, Failure, Outcome};
use crate::git::{
    run_git, run_subcontext_git, run_work_git, work_dir, work_path, Checkout, CheckoutContext,
};
use crate::paths::{
    join_path, lemma_parent_shorter, parent, parent_of, parts, path_join, same_path,
};
use crate::text::{cat, cat3, lines, lines_of, Text};
use crate::world::World;

verus! {

// ─── Branch operations (bare repo only, no checkout context needed) ──

/// Creating the empty overlay branch `branch`.
pub open spec fn create_branch_run(w: World, root: Text, branch: Text) -> (World, Outcome<()>) {
    let (w, tree) = w.subcontext_git(
        seq!["hash-object"@, "-t"@, "tree"@, "/dev/null"@],
        root,
    );
    match tree {
        Err(e) => (w, Err(e)),
        Ok(tree) => {
            let (w, commit) = w.subcontext_git(
                seq!["commit-tree"@, tree, "-m"@, "init "@ + branch],
                root,
            );
            match commit {
                Err(e) => (w, Err(e)),
                Ok(commit) => {
                    let (w, done) = w.subcontext_git(
                        seq!["update-ref"@, "refs/heads/"@ + branch, commit],
                        root,
                    );
                    match done {
                        Err(e) => (w, Err(e)),
                        Ok(_) => (w, Ok(())),
                    }
                },
            }
        },
    }
}

/// Create an empty overlay branch via plumbing (no worktree changes).
pub fn create_overlay_branch<B: Backend>(backend: &mut B, root: &str, branch: &str) -> (r: Result<
    (),
    Failure,
>)
    ensures
        (final(backend).world(), outcome(r)) == create_branch_run(
            old(backend).world(),
            root@,
            branch@,
        ),
{
    // Create an empty tree (hash the empty file as a tree object)
    let empty_tree = run_subcontext_git(
        backend,
        &argv4("hash-object", "-t", "tree", "/dev/null"),
        root,
    )?;

    // Create a commit pointing to the empty tree
    let message = cat("init ", branch);
    let commit = run_subcontext_git(
        backend,
        &argv4("commit-tree", empty_tree.as_str(), "-m", message.as_str()),
        root,
    )?;

    // Create the ref
    let reference = cat("refs/heads/", branch);
    run_subcontext_git(
        backend,
        &argv3("update-ref", reference.as_str(), commit.as_str()),
        root,
    )?;

    Ok(())
}

/// Forking the overlay branch `branch` from `source`.
pub open spec fn fork_branch_run(w: World, root: Text, branch: Text, source: Text) -> (
    World,
    Outcome<()>,
) {
    let (w, done) = w.subcontext_git(seq!["branch"@, branch, source], root);
    match done {
        Err(e) => (w, Err(e)),
        Ok(_) => (w, Ok(())),
    }
}

/// Create an overlay branch forked from a source branch.
/// The new branch starts with the same content as `source`.
pub fn create_overlay_branch_from<B: Backend>(
    backend: &mut B,
    root: &str,
    branch: &str,
    source: &str,
) -> (r: Result<(), Failure>)
    ensures
        (final(backend).world(), outcome(r)) == fork_branch_run(
            old(backend).world(),
            root@,
            branch@,
            source@,
        ),
{
    run_subcontext_git(backend, &argv3("branch", branch, source), root)?;
    Ok(())
}

/// Asking whether the branch `branch` exists: it does when git finds its ref.
pub open spec fn branch_exists_run(w: World, root: Text, branch: Text) -> (World, bool) {
    let (w, found) = w.subcontext_git(
        seq!["show-ref"@, "--verify"@, "refs/heads/"@ + branch],
        root,
    );
    (w, found is Ok)
}

/// Check if an overlay branch exists in the subcontext repo.
pub fn overlay_branch_exists<B: Backend>(backend: &mut B, root: &str, branch: &str) -> (r: Result<
    bool,
    Failure,
>)
    ensures
        ({
            let (w, found) = branch_exists_run(old(backend).world(), root@, branch@);
            (final(backend).world(), outcome(r)) == (w, Ok::<bool, Seq<Text>>(found))
        }),
{
    let reference = cat("refs/heads/", branch);
    let result = run_subcontext_git(
        backend,
        &argv3("show-ref", "--verify", reference.as_str()),
        root,
    );
    Ok(result.is_ok())
}

// ─── Work directory management ───────────────────────────────────────

/// The branch that is checked out at `work`: none where there is no work
/// directory, where git fails, or where it names no branch.
pub open spec fn branch_at_run(w: World, work: Text) -> (World, Option<Text>) {
    let (w, there) = w.path_exists(work);
    if !there {
        (w, None)
    } else {
        let (w, branch) = w.work_git(seq!["symbolic-ref"@, "--short"@, "HEAD"@], work);
        match branch {
            Ok(branch) if branch.len() > 0 => (w, Some(branch)),
            _ => (w, None),
        }
    }
}

/// The branch that is checked out in a work directory.
fn branch_at<B: Backend>(backend: &mut B, work: &str) -> (r: Option<String>)
    ensures
        (final(backend).world(), r.deep_view()) == branch_at_run(old(backend).world(), work@),
{
    if !backend.path_exists(work) {
        return None;
    }
    match run_work_git(backend, &argv3("symbolic-ref", "--short", "HEAD"), work) {
        Ok(branch) => {
            if branch.as_str().is_empty() {
                None
            } else {
                Some(branch)
            }
        },
        Err(_) => None,
    }
}

/// Get the current branch name in the overlay work directory.
pub fn current_work_branch<B: Backend>(backend: &mut B, ctx: &CheckoutContext) -> (r: Result<
    Option<String>,
    Failure,
>)
    ensures
        ({
            let (w, branch) = branch_at_run(old(backend).world(), ctx@.overlay_work());
            (final(backend).world(), outcome(r)) == (w, Ok::<Option<Text>, Seq<Text>>(branch))
        }),
{
    let work = ctx.overlay_work_dir();
    Ok(branch_at(backend, work.as_str()))
}

/// The overlay branch of the main checkout, if the subcontext repo has it.
pub open spec fn main_overlay_run(w: World, main_root: Text) -> (World, Option<Text>) {
    let (w, branch) = branch_at_run(w, work_path(main_root));
    match branch {
        None => (w, None),
        Some(branch) => {
            let (w, found) = branch_exists_run(w, main_root, branch);
            (
                w,
                if found {
                    Some(branch)
                } else {
                    None
                },
            )
        },
    }
}

/// Read the main checkout's current overlay branch (for worktree fork-source).
pub fn main_checkout_overlay_branch<B: Backend>(backend: &mut B, main_root: &str) -> (r: Result<
    Option<String>,
    Failure,
>)
    ensures
        ({
            let (w, branch) = main_overlay_run(old(backend).world(), main_root@);
            (final(backend).world(), outcome(r)) == (w, Ok::<Option<Text>, Seq<Text>>(branch))
        }),
{
    let main_work = work_dir(main_root);
    match branch_at(backend, main_work.as_str()) {
        None => Ok(None),
        Some(branch) => {
            if overlay_branch_exists(backend, main_root, branch.as_str())? {
                Ok(Some(branch))
            } else {
                Ok(None)
            }
        },
    }
}

/// Switching the work directory of a checkout to `branch`.
pub open spec fn switch_run(w: World, c: Checkout, branch: Text) -> (World, Outcome<()>) {
    let (w, done) = w.work_git(seq!["checkout"@, branch], c.overlay_work());
    match done {
        Err(e) => (w, Err(e)),
        Ok(_) => (w, Ok(())),
    }
}

/// Switch the overlay work directory to a different branch.
pub fn switch_work_branch<B: Backend>(backend: &mut B, ctx: &CheckoutContext, branch: &str) -> (r:
    Result<(), Failure>)
    ensures
        (final(backend).world(), outcome(r)) == switch_run(old(backend).world(), ctx@, branch@),
{
    let work = ctx.overlay_work_dir();
    run_work_git(backend, &argv2("checkout", branch), work.as_str())?;
    Ok(())
}

/// Creating the directory that a path lies in, where it lies in one.
pub open spec fn ensure_parent_run(w: World, path: Text) -> (World, Outcome<()>) {
    match parent_of(path) {
        None => (w, Ok(())),
        Some(up) => w.create_dir_all(up),
    }
}

/// Create the directory that `path` lies in.
pub fn ensure_parent<B: Backend>(backend: &mut B, path: &str) -> (r: Result<(), Failure>)
    ensures
        (final(backend).world(), outcome(r)) == ensure_parent_run(old(backend).world(), path@),
{
    match parent(path) {
        None => Ok(()),
        Some(up) => backend.create_dir_all(up.as_str()),
    }
}

/// Creating the work directory of a checkout on `branch`.
pub open spec fn create_work_run(w: World, c: Checkout, branch: Text) -> (World, Outcome<()>) {
    let (w, made) = ensure_parent_run(w, c.overlay_work());
    match made {
        Err(e) => (w, Err(e)),
        Ok(_) => {
            let (w, done) = w.subcontext_git(
                seq!["worktree"@, "add"@, c.overlay_work(), branch],
                c.main_root,
            );
            match done {
                Err(e) => (w, Err(e)),
                Ok(_) => (w, Ok(())),
            }
        },
    }
}

/// Create the overlay work directory as a worktree of the bare repo.
pub fn create_overlay_work_dir<B: Backend>(
    backend: &mut B,
    ctx: &CheckoutContext,
    branch: &str,
) -> (r: Result<(), Failure>)
    ensures
        (final(backend).world(), outcome(r)) == create_work_run(
            old(backend).world(),
            ctx@,
            branch@,
        ),
{
    let work = ctx.overlay_work_dir();
    ensure_parent(backend, work.as_str())?;
    run_subcontext_git(
        backend,
        &argv4("worktree", "add", work.as_str(), branch),
        ctx.main_root.as_str(),
    )?;
    Ok(())
}

/// The lines that are not empty.
pub open spec fn nonempty(items: Seq<Text>) -> Seq<Text>
    decreases items.len(),
{
    if items.len() == 0 {
        Seq::empty()
    } else if items.last().len() > 0 {
        nonempty(items.drop_last()).push(items.last())
    } else {
        nonempty(items.drop_last())
    }
}

/// The lines of `output` that are not empty.
pub fn nonempty_lines(output: &str) -> (r: Vec<String>)
    ensures
        r.deep_view() == nonempty(lines_of(output@)),
{
    let all = lines(output);
    let ghost views = all.deep_view();
    let mut out: Vec<String> = Vec::new();
    let mut i: usize = 0;
    assert(out.deep_view() =~= nonempty(views.take(0)));
    while i < all.len()
        invariant
            i <= all@.len(),
            views == all.deep_view(),
            out.deep_view() == nonempty(views.take(i as int)),
        decreases all@.len() - i,
    {
        let ghost before = out.deep_view();
        proof {
            assert(views.take(i + 1).drop_last() =~= views.take(i as int));
            assert(views.take(i + 1).last() == all@[i as int]@);
        }
        if !all[i].as_str().is_empty() {
            out.push(all[i].clone());
            assert(out.deep_view() =~= before.push(all@[i as int]@));
        }
        i = i + 1;
    }
    assert(views.take(all@.len() as int) =~= views);
    out
}

/// Listing the files of the overlay of a checkout.
pub open spec fn list_run(w: World, c: Checkout) -> (World, Outcome<Seq<Text>>) {
    let (w, there) = w.path_exists(c.overlay_work());
    if !there {
        (w, Ok(Seq::empty()))
    } else {
        let (w, output) = w.work_git(seq!["ls-files"@], c.overlay_work());
        match output {
            Err(e) => (w, Err(e)),
            Ok(output) => (w, Ok(nonempty(lines_of(output)))),
        }
    }
}

/// List files known to the overlay (work directory).
pub fn list_overlay_files<B: Backend>(backend: &mut B, ctx: &CheckoutContext) -> (r: Result<
    Vec<String>,
    Failure,
>)
    ensures
        (final(backend).world(), outcome(r)) == list_run(old(backend).world(), ctx@),
{
    let work = ctx.overlay_work_dir();
    if !backend.path_exists(work.as_str()) {
        let none: Vec<String> = Vec::new();
        assert(none.deep_view() =~= Seq::<Text>::empty());
        return Ok(none);
    }
    let output = run_work_git(backend, &argv1("ls-files"), work.as_str())?;
    Ok(nonempty_lines(output.as_str()))
}

// ─── Helpers ─────────────────────────────────────────────────────────

/// Asking whether the host repo tracks a file: it does when git knows it.
pub open spec fn tracked_run(w: World, c: Checkout, file: Text) -> (World, bool) {
    let (w, found) = w.git(seq!["ls-files"@, "--error-unmatch"@, file], c.checkout_root);
    (w, found is Ok)
}

/// Check if a file is tracked by the host repo's index.
pub fn is_tracked_by_host<B: Backend>(backend: &mut B, ctx: &CheckoutContext, file: &str) -> (r:
    Result<bool, Failure>)
    ensures
        ({
            let (w, found) = tracked_run(old(backend).world(), ctx@, file@);
            (final(backend).world(), outcome(r)) == (w, Ok::<bool, Seq<Text>>(found))
        }),
{
    let result = run_git(
        backend,
        &argv3("ls-files", "--error-unmatch", file),
        ctx.checkout_root.as_str(),
    );
    Ok(result.is_ok())
}

/// Removing the empty directories from `dir` up to `stop_at`, which stays. It
/// ends at the first that cannot be removed.
pub open spec fn remove_empty_run(w: World, dir: Text, stop_at: Text) -> World
    decreases dir.len(),
{
    proof {
        lemma_parent_shorter(dir);
    }
    if parts(dir) == parts(stop_at) {
        w
    } else {
        let (w, removed) = w.remove_dir(dir);
        match (removed, parent_of(dir)) {
            (Ok(_), Some(up)) => remove_empty_run(w, up, stop_at),
            _ => w,
        }
    }
}

/// Remove empty parent directories up to (but not including) stop_at.
pub fn remove_empty_parents<B: Backend>(backend: &mut B, dir: &str, stop_at: &str)
    ensures
        final(backend).world() == remove_empty_run(old(backend).world(), dir@, stop_at@),
{
    let mut current: String = dir.to_owned();
    loop
        invariant
            remove_empty_run(backend.world(), current@, stop_at@) == remove_empty_run(
                old(backend).world(),
                dir@,
                stop_at@,
            ),
        decreases current@.len(),
    {
        if same_path(current.as_str(), stop_at) {
            return;
        }
        if backend.remove_dir(current.as_str()).is_err() {
            return;
        }
        proof {
            lemma_parent_shorter(current@);
        }
        match parent(current.as_str()) {
            Some(up) => {
                current = up;
            },
            None => {
                return;
            },
        }
    }
}

// ─── Apply / unapply / save ─────────────────────────────────────────

/// Hiding a change of a file that the host repo tracks.
pub open spec fn hide_run(w: World, c: Checkout, file: Text) -> World {
    w.git(seq!["update-index"@, "--skip-worktree"@, file], c.checkout_root).0
}

/// Bringing back the host repo's version of a file.
pub open spec fn restore_run(w: World, c: Checkout, file: Text) -> World {
    let (w, _) = w.git(seq!["update-index"@, "--no-skip-worktree"@, file], c.checkout_root);
    w.git(seq!["checkout"@, "--"@, file], c.checkout_root).0
}

/// Taking a file that is only in the overlay out of the checkout, with the
/// directories that it leaves empty.
pub open spec fn discard_run(w: World, c: Checkout, file: Text) -> World {
    let path = path_join(c.checkout_root, file);
    let (w, there) = w.path_exists(path);
    let w = if there {
        w.remove_file(path).0
    } else {
        w
    };
    match parent_of(path) {
        Some(up) => remove_empty_run(w, up, c.checkout_root),
        None => w,
    }
}

/// Taking an overlay file out of the checkout: a file that the host repo tracks
/// gets the host's version back, any other is removed.
pub open spec fn withdraw_run(w: World, c: Checkout, file: Text) -> World {
    let (w, known) = tracked_run(w, c, file);
    if known {
        restore_run(w, c, file)
    } else {
        discard_run(w, c, file)
    }
}

/// Take an overlay file out of the checkout.
fn withdraw<B: Backend>(backend: &mut B, ctx: &CheckoutContext, file: &str) -> (r: Result<
    (),
    Failure,
>)
    ensures
        final(backend).world() == withdraw_run(old(backend).world(), ctx@, file@),
        r is Ok,
{
    let path = join_path(ctx.checkout_root.as_str(), file);
    let known = is_tracked_by_host(backend, ctx, file)?;
    if known {
        // Restore host repo version
        let _ = run_git(
            backend,
            &argv3("update-index", "--no-skip-worktree", file),
            ctx.checkout_root.as_str(),
        );
        let _ = run_git(backend, &argv3("checkout", "--", file), ctx.checkout_root.as_str());
    } else {
        // Remove overlay-only file
        if backend.path_exists(path.as_str()) {
            let _ = backend.remove_file(path.as_str());
        }
        // Clean up empty parent directories
        if let Some(up) = parent(path.as_str()) {
            remove_empty_parents(backend, up.as_str(), ctx.checkout_root.as_str());
        }
    }
    Ok(())
}

/// Copying a file to a place, with the directory that it needs.
pub open spec fn place_run(w: World, from: Text, to: Text) -> (World, Outcome<()>) {
    let (w, made) = ensure_parent_run(w, to);
    match made {
        Err(e) => (w, Err(e)),
        Ok(_) => {
            let (w, copied) = w.copy(from, to);
            match copied {
                Err(e) => (w, Err(e)),
                Ok(_) => (w, Ok(())),
            }
        },
    }
}

/// The same, with a context for a copy that fails.
pub open spec fn place_in_context_run(w: World, from: Text, to: Text, message: Text) -> (
    World,
    Outcome<()>,
) {
    let (w, made) = ensure_parent_run(w, to);
    match made {
        Err(e) => (w, Err(e)),
        Ok(_) => {
            let (w, copied) = w.copy(from, to);
            match contextual(copied, message) {
                Err(e) => (w, Err(e)),
                Ok(_) => (w, Ok(())),
            }
        },
    }
}

/// Laying one file of the overlay over the checkout.
pub open spec fn apply_file_run(w: World, c: Checkout, file: Text) -> (World, Outcome<()>) {
    let (w, placed) = place_in_context_run(
        w,
        path_join(c.overlay_work(), file),
        path_join(c.checkout_root, file),
        "failed to copy overlay file: "@ + file,
    );
    match placed {
        Err(e) => (w, Err(e)),
        Ok(_) => {
            let (w, known) = tracked_run(w, c, file);
            (
                if known {
                    hide_run(w, c, file)
                } else {
                    w
                },
                Ok(()),
            )
        },
    }
}

/// Laying the files from the `i`-th on over the checkout, up to the first that
/// fails.
pub open spec fn apply_files_run(w: World, c: Checkout, files: Seq<Text>, i: nat) -> (
    World,
    Outcome<()>,
)
    decreases files.len() - i,
{
    if i >= files.len() {
        (w, Ok(()))
    } else {
        let (w, applied) = apply_file_run(w, c, files[i as int]);
        match applied {
            Err(e) => (w, Err(e)),
            Ok(_) => apply_files_run(w, c, files, i + 1),
        }
    }
}

/// Applying the overlay of a checkout.
pub open spec fn apply_run(w: World, c: Checkout) -> (World, Outcome<()>) {
    let (w, files) = list_run(w, c);
    match files {
        Err(e) => (w, Err(e)),
        Ok(files) => {
            let (w, applied) = apply_files_run(w, c, files, 0);
            match applied {
                Err(e) => (w, Err(e)),
                Ok(_) => sync_run(w, c),
            }
        },
    }
}

/// Lay one file of the overlay over the checkout.
fn apply_file<B: Backend>(backend: &mut B, ctx: &CheckoutContext, work: &str, file: &str) -> (r:
    Result<(), Failure>)
    requires
        work@ == ctx@.overlay_work(),
    ensures
        (final(backend).world(), outcome(r)) == apply_file_run(old(backend).world(), ctx@, file@),
{
    let src = join_path(work, file);
    let dest = join_path(ctx.checkout_root.as_str(), file);
    ensure_parent(backend, dest.as_str())?;
    let message = cat("failed to copy overlay file: ", file);
    context(backend.copy(src.as_str(), dest.as_str()), message.as_str())?;

    // If this file is tracked by the host repo, set skip-worktree
    if is_tracked_by_host(backend, ctx, file)? {
        let _ = run_git(
            backend,
            &argv3("update-index", "--skip-worktree", file),
            ctx.checkout_root.as_str(),
        );
    }
    Ok(())
}

/// Apply overlay: copy all files from the work dir into the checkout root.
/// Sets skip-worktree on files known to both repos.
pub fn apply_overlay<B: Backend>(backend: &mut B, ctx: &CheckoutContext) -> (r: Result<(), Failure>)
    ensures
        (final(backend).world(), outcome(r)) == apply_run(old(backend).world(), ctx@),
{
    let work = ctx.overlay_work_dir();
    let files = list_overlay_files(backend, ctx)?;
    let ghost all = files.deep_view();
    let ghost w0 = backend.world();
    let mut i: usize = 0;
    while i < files.len()
        invariant
            i <= files@.len(),
            all == files.deep_view(),
            work@ == ctx@.overlay_work(),
            apply_files_run(backend.world(), ctx@, all, i as nat) == apply_files_run(
                w0,
                ctx@,
                all,
                0,
            ),
            list_run(old(backend).world(), ctx@) == (w0, Ok::<Seq<Text>, Seq<Text>>(all)),
        decreases files@.len() - i,
    {
        assert(all[i as int] == files@[i as int]@);
        apply_file(backend, ctx, work.as_str(), files[i].as_str())?;
        i = i + 1;
    }
    sync_excludes(backend, ctx)
}

/// Copying one overlay file of the checkout back to the work directory, where
/// the checkout has it.
pub open spec fn save_file_run(w: World, c: Checkout, file: Text) -> (World, Outcome<()>) {
    let src = path_join(c.checkout_root, file);
    let (w, there) = w.path_exists(src);
    if there {
        place_run(w, src, path_join(c.overlay_work(), file))
    } else {
        (w, Ok(()))
    }
}

/// Copying the files from the `i`-th on back to the work directory.
pub open spec fn save_files_run(w: World, c: Checkout, files: Seq<Text>, i: nat) -> (
    World,
    Outcome<()>,
)
    decreases files.len() - i,
{
    if i >= files.len() {
        (w, Ok(()))
    } else {
        let (w, saved) = save_file_run(w, c, files[i as int]);
        match saved {
            Err(e) => (w, Err(e)),
            Ok(_) => save_files_run(w, c, files, i + 1),
        }
    }
}

/// Committing what has changed in the work directory `work`; nothing is
/// committed where nothing has.
pub open spec fn commit_work_run(w: World, work: Text, message: Text) -> (World, Outcome<()>) {
    let (w, added) = w.work_git(seq!["add"@, "-A"@], work);
    match added {
        Err(e) => (w, Err(e)),
        Ok(_) => {
            let (w, status) = w.work_git(seq!["status"@, "--porcelain"@], work);
            match status {
                Err(e) => (w, Err(e)),
                Ok(status) => if status.len() == 0 {
                    (w, Ok(()))
                } else {
                    let (w, done) = w.work_git(seq!["commit"@, "-m"@, message], work);
                    match done {
                        Err(e) => (w, Err(e)),
                        Ok(_) => (w, Ok(())),
                    }
                },
            }
        },
    }
}

/// Stage and commit in a work directory.
pub fn commit_work<B: Backend>(backend: &mut B, work: &str, message: &str) -> (r: Result<
    (),
    Failure,
>)
    ensures
        (final(backend).world(), outcome(r)) == commit_work_run(
            old(backend).world(),
            work@,
            message@,
        ),
{
    run_work_git(backend, &argv2("add", "-A"), work)?;
    let status = run_work_git(backend, &argv2("status", "--porcelain"), work)?;
    if status.as_str().is_empty() {
        return Ok(());
    }
    run_work_git(backend, &argv3("commit", "-m", message), work)?;
    Ok(())
}

/// Saving the overlay of a checkout.
pub open spec fn save_run(w: World, c: Checkout, message: Text) -> (World, Outcome<()>) {
    let (w, there) = w.path_exists(c.overlay_work());
    if !there {
        (w, Ok(()))
    } else {
        let (w, files) = list_run(w, c);
        match files {
            Err(e) => (w, Err(e)),
            Ok(files) => {
                let (w, saved) = save_files_run(w, c, files, 0);
                match saved {
                    Err(e) => (w, Err(e)),
                    Ok(_) => commit_work_run(w, c.overlay_work(), message),
                }
            },
        }
    }
}

/// Copy a file to a place, with the directory that it needs.
fn place<B: Backend>(backend: &mut B, from: &str, to: &str) -> (r: Result<(), Failure>)
    ensures
        (final(backend).world(), outcome(r)) == place_run(old(backend).world(), from@, to@),
{
    ensure_parent(backend, to)?;
    backend.copy(from, to)?;
    Ok(())
}

/// Save overlay: copy tracked overlay files from checkout root back to work dir, then commit.
pub fn save_overlay<B: Backend>(backend: &mut B, ctx: &CheckoutContext, message: &str) -> (r:
    Result<(), Failure>)
    ensures
        (final(backend).world(), outcome(r)) == save_run(old(backend).world(), ctx@, message@),
{
    let work = ctx.overlay_work_dir();
    if !backend.path_exists(work.as_str()) {
        return Ok(());
    }
    let ghost w1 = backend.world();
    let files = list_overlay_files(backend, ctx)?;
    let ghost all = files.deep_view();
    let ghost w0 = backend.world();

    // Copy overlay files from checkout root back to work/
    let mut i: usize = 0;
    while i < files.len()
        invariant
            i <= files@.len(),
            all == files.deep_view(),
            work@ == ctx@.overlay_work(),
            save_files_run(backend.world(), ctx@, all, i as nat) == save_files_run(
                w0,
                ctx@,
                all,
                0,
            ),
            old(backend).world().path_exists(ctx@.overlay_work()) == (w1, true),
            list_run(w1, ctx@) == (w0, Ok::<Seq<Text>, Seq<Text>>(all)),
        decreases files@.len() - i,
    {
        assert(all[i as int] == files@[i as int]@);
        let file = files[i].as_str();
        let src = join_path(ctx.checkout_root.as_str(), file);
        let dest = join_path(work.as_str(), file);
        if backend.path_exists(src.as_str()) {
            place(backend, src.as_str(), dest.as_str())?;
        }
        i = i + 1;
    }

    // Stage and commit in work/
    commit_work(backend, work.as_str(), message)
}

/// Taking the files from the `i`-th on out of the checkout.
pub open spec fn withdraw_files_run(w: World, c: Checkout, files: Seq<Text>, i: nat) -> World
    decreases files.len() - i,
{
    if i >= files.len() {
        w
    } else {
        withdraw_files_run(withdraw_run(w, c, files[i as int]), c, files, i + 1)
    }
}

/// Unapplying the overlay of a checkout.
pub open spec fn unapply_run(w: World, c: Checkout) -> (World, Outcome<()>) {
    let (w, files) = list_run(w, c);
    match files {
        Err(e) => (w, Err(e)),
        Ok(files) => (withdraw_files_run(w, c, files, 0), Ok(())),
    }
}

/// Unapply overlay: remove overlay-only files from checkout root, restore host-tracked files.
pub fn unapply_overlay<B: Backend>(backend: &mut B, ctx: &CheckoutContext) -> (r: Result<
    (),
    Failure,
>)
    ensures
        (final(backend).world(), outcome(r)) == unapply_run(old(backend).world(), ctx@),
{
    let files = list_overlay_files(backend, ctx)?;
    let ghost all = files.deep_view();
    let ghost w0 = backend.world();
    let mut i: usize = 0;
    while i < files.len()
        invariant
            i <= files@.len(),
            all == files.deep_view(),
            withdraw_files_run(backend.world(), ctx@, all, i as nat) == withdraw_files_run(
                w0,
                ctx@,
                all,
                0,
            ),
            list_run(old(backend).world(), ctx@) == (w0, Ok::<Seq<Text>, Seq<Text>>(all)),
        decreases files@.len() - i,
    {
        assert(all[i as int] == files@[i as int]@);
        withdraw(backend, ctx, files[i].as_str())?;
        i = i + 1;
    }
    Ok(())
}

/// Copying an overlay-only file that survived a checkout back to the work
/// directory.
pub open spec fn survivor_run(w: World, c: Checkout, file: Text) -> (World, Outcome<()>) {
    let src = path_join(c.checkout_root, file);
    let (w, there) = w.path_exists(src);
    if !there {
        (w, Ok(()))
    } else {
        let (w, known) = tracked_run(w, c, file);
        if known {
            (w, Ok(()))
        } else {
            place_run(w, src, path_join(c.overlay_work(), file))
        }
    }
}

/// The same for the files from the `i`-th on.
pub open spec fn survivors_run(w: World, c: Checkout, files: Seq<Text>, i: nat) -> (
    World,
    Outcome<()>,
)
    decreases files.len() - i,
{
    if i >= files.len() {
        (w, Ok(()))
    } else {
        let (w, saved) = survivor_run(w, c, files[i as int]);
        match saved {
            Err(e) => (w, Err(e)),
            Ok(_) => survivors_run(w, c, files, i + 1),
        }
    }
}

/// Copying back all overlay-only files that survived a checkout.
pub open spec fn sync_back_run(w: World, c: Checkout) -> (World, Outcome<()>) {
    let (w, files) = list_run(w, c);
    match files {
        Err(e) => (w, Err(e)),
        Ok(files) => survivors_run(w, c, files, 0),
    }
}

/// Sync overlay-only files from checkout root back to work dir (they survive host checkout).
pub fn sync_back_surviving_files<B: Backend>(backend: &mut B, ctx: &CheckoutContext) -> (r: Result<
    (),
    Failure,
>)
    ensures
        (final(backend).world(), outcome(r)) == sync_back_run(old(backend).world(), ctx@),
{
    let work = ctx.overlay_work_dir();
    let files = list_overlay_files(backend, ctx)?;
    let ghost all = files.deep_view();
    let ghost w0 = backend.world();
    let mut i: usize = 0;
    while i < files.len()
        invariant
            i <= files@.len(),
            all == files.deep_view(),
            work@ == ctx@.overlay_work(),
            survivors_run(backend.world(), ctx@, all, i as nat) == survivors_run(w0, ctx@, all, 0),
            list_run(old(backend).world(), ctx@) == (w0, Ok::<Seq<Text>, Seq<Text>>(all)),
        decreases files@.len() - i,
    {
        assert(all[i as int] == files@[i as int]@);
        let file = files[i].as_str();
        let src = join_path(ctx.checkout_root.as_str(), file);
        if backend.path_exists(src.as_str()) {
            if !is_tracked_by_host(backend, ctx, file)? {
                let dest = join_path(work.as_str(), file);
                place(backend, src.as_str(), dest.as_str())?;
            }
        }
        i = i + 1;
    }
    Ok(())
}

// ─── File add / remove ───────────────────────────────────────────────

/// Adding a file of the checkout to its overlay.
pub open spec fn add_file_run(w: World, c: Checkout, path: Text) -> (World, Outcome<()>) {
    let src = path_join(c.checkout_root, path);
    let (w, there) = w.path_exists(src);
    if !there {
        (w, Err(failed("file does not exist: "@ + path)))
    } else {
        let (w, placed) = place_in_context_run(
            w,
            src,
            path_join(c.overlay_work(), path),
            "failed to copy "@ + path + " to work/"@,
        );
        match placed {
            Err(e) => (w, Err(e)),
            Ok(_) => {
                let (w, added) = w.work_git(seq!["add"@, path], c.overlay_work());
                match added {
                    Err(e) => (w, Err(e)),
                    Ok(_) => {
                        let (w, known) = tracked_run(w, c, path);
                        let w = if known {
                            hide_run(w, c, path)
                        } else {
                            w
                        };
                        sync_run(w, c)
                    },
                }
            },
        }
    }
}

/// Add a file to the overlay: copy to work dir, git add, sync excludes.
pub fn add_file<B: Backend>(backend: &mut B, ctx: &CheckoutContext, path: &str) -> (r: Result<
    (),
    Failure,
>)
    ensures
        (final(backend).world(), outcome(r)) == add_file_run(old(backend).world(), ctx@, path@),
{
    let src = join_path(ctx.checkout_root.as_str(), path);
    let work = ctx.overlay_work_dir();
    let dest = join_path(work.as_str(), path);

    if !backend.path_exists(src.as_str()) {
        let message = cat("file does not exist: ", path);
        return Err(fail(message.as_str()));
    }
    ensure_parent(backend, dest.as_str())?;
    let message = cat3("failed to copy ", path, " to work/");
    context(backend.copy(src.as_str(), dest.as_str()), message.as_str())?;

    run_work_git(backend, &argv2("add", path), work.as_str())?;

    // If tracked by host repo, set skip-worktree
    if is_tracked_by_host(backend, ctx, path)? {
        let _ = run_git(
            backend,
            &argv3("update-index", "--skip-worktree", path),
            ctx.checkout_root.as_str(),
        );
    }
    sync_excludes(backend, ctx)
}

/// Removing a file from the overlay of a checkout.
pub open spec fn remove_file_run(w: World, c: Checkout, path: Text) -> (World, Outcome<()>) {
    let (w, removed) = w.work_git(seq!["rm"@, "-f"@, path], c.overlay_work());
    match removed {
        Err(e) => (w, Err(e)),
        Ok(_) => sync_run(withdraw_run(w, c, path), c),
    }
}

/// Remove a file from the overlay.
pub fn remove_file<B: Backend>(backend: &mut B, ctx: &CheckoutContext, path: &str) -> (r: Result<
    (),
    Failure,
>)
    ensures
        (final(backend).world(), outcome(r)) == remove_file_run(
            old(backend).world(),
            ctx@,
            path@,
        ),
{
    let work = ctx.overlay_work_dir();

    // Remove from work/ worktree
    run_work_git(backend, &argv3("rm", "-f", path), work.as_str())?;

    withdraw(backend, ctx, path)?;
    sync_excludes(backend, ctx)
}

// ─── Excludes ────────────────────────────────────────────────────────

/// The exclude file of the repository at `root`.
pub open spec fn exclude_path(root: Text) -> Text {
    path_join(path_join(path_join(root, ".git"@), "info"@), "exclude"@)
}

/// The exclude file of a repository.
fn exclude_file(root: &str) -> (r: String)
    ensures
        r@ == exclude_path(root@),
{
    let git = join_path(root, ".git");
    let info = join_path(git.as_str(), "info");
    join_path(info.as_str(), "exclude")
}

/// Those of the files from the `i`-th on that the host repo does not track.
pub open spec fn untracked_run(w: World, c: Checkout, files: Seq<Text>, i: nat, found: Seq<Text>) -> (
    World,
    Seq<Text>,
)
    decreases files.len() - i,
{
    if i >= files.len() {
        (w, found)
    } else {
        let (w, known) = tracked_run(w, c, files[i as int]);
        untracked_run(
            w,
            c,
            files,
            i + 1,
            if known {
                found
            } else {
                found.push(files[i as int])
            },
        )
    }
}

/// Updating the section of a checkout in the exclude file.
pub open spec fn sync_run(w: World, c: Checkout) -> (World, Outcome<()>) {
    let path = exclude_path(c.main_root);
    let (w, made) = ensure_parent_run(w, path);
    match made {
        Err(e) => (w, Err(e)),
        Ok(_) => {
            let (w, existing) = w.read(path);
            let existing = match existing {
                Ok(text) => text,
                Err(_) => Seq::empty(),
            };
            let (w, files) = list_run(w, c);
            match files {
                Err(e) => (w, Err(e)),
                Ok(files) => {
                    let (w, excluded) = untracked_run(w, c, files, 0, Seq::empty());
                    w.write(path, synced(existing, c.worktree_name, excluded))
                },
            }
        },
    }
}

/// Update the dynamic section in .git/info/exclude with overlay file list.
/// Uses tagged sections so multiple worktrees can coexist in the shared exclude file.
pub fn sync_excludes<B: Backend>(backend: &mut B, ctx: &CheckoutContext) -> (r: Result<(), Failure>)
    ensures
        (final(backend).world(), outcome(r)) == sync_run(old(backend).world(), ctx@),
{
    let path = exclude_file(ctx.main_root.as_str());
    ensure_parent(backend, path.as_str())?;
    let existing = match backend.read_to_string(path.as_str()) {
        Ok(text) => text,
        Err(_) => String::new(),
    };
    let ghost w1 = backend.world();

    // Get overlay files that are NOT tracked by the host repo (those need exclude)
    let overlay_files = list_overlay_files(backend, ctx)?;
    let ghost all = overlay_files.deep_view();
    let ghost w0 = backend.world();
    let mut exclude_files: Vec<String> = Vec::new();
    let mut i: usize = 0;
    assert(exclude_files.deep_view() =~= Seq::<Text>::empty());
    while i < overlay_files.len()
        invariant
            i <= overlay_files@.len(),
            all == overlay_files.deep_view(),
            untracked_run(backend.world(), ctx@, all, i as nat, exclude_files.deep_view())
                == untracked_run(w0, ctx@, all, 0, Seq::empty()),
        decreases overlay_files@.len() - i,
    {
        assert(all[i as int] == overlay_files@[i as int]@);
        let ghost before = exclude_files.deep_view();
        let known = match is_tracked_by_host(backend, ctx, overlay_files[i].as_str()) {
            Ok(known) => known,
            Err(e) => return Err(e),
        };
        if !known {
            exclude_files.push(overlay_files[i].clone());
            assert(exclude_files.deep_view() =~= before.push(all[i as int]));
        }
        i = i + 1;
    }

    let content = excludes_with(existing.as_str(), &ctx.worktree_name, &exclude_files);
    write_text(backend, path.as_str(), content.as_str())
}

/// Removing every overlay section from the exclude file.
pub open spec fn clean_run(w: World, root: Text) -> (World, Outcome<()>) {
    let path = exclude_path(root);
    let (w, there) = w.path_exists(path);
    if !there {
        (w, Ok(()))
    } else {
        let (w, existing) = w.read(path);
        match existing {
            Err(e) => (w, Err(e)),
            Ok(existing) => w.write(path, cleaned(existing)),
        }
    }
}

/// Clean ALL subcontext overlay sections from .git/info/exclude (for uninstall).
pub fn clean_all_excludes<B: Backend>(backend: &mut B, root: &str) -> (r: Result<(), Failure>)
    ensures
        (final(backend).world(), outcome(r)) == clean_run(old(backend).world(), root@),
{
    let path = exclude_file(root);
    if !backend.path_exists(path.as_str()) {
        return Ok(());
    }
    let existing = backend.read_to_string(path.as_str())?;
    let content = clean_excludes(existing.as_str());
    write_text(backend, path.as_str(), content.as_str())
}

} // verus!
