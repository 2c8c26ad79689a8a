//! Submodules within the overlay.

use vstd::prelude::*;

use crate::backend::{argv2, argv3, argv4, Backend};
use crate::failure::{fail, failed, outcome, Failure, Outcome};
use crate::git::{gitdir_in, gitdir_text, run_work_git, Checkout, CheckoutContext};
use crate::overlay::{apply_overlay, apply_run, commit_work, commit_work_run};
use crate::paths::{is_absolute, is_rooted, join_path, path_join};
use crate::text::{
    cat, cat3, cat5, chars_of, lines, lines_of, piece, same, split, split_at, strip_prefix,
    strip_suffix, without_prefix, without_suffix, Text,
};
use crate::world::World;

verus! {

/// The failure where no subcontext is installed.
pub open spec fn not_installed() -> Seq<Text> {
    failed("subcontext is not installed (run `git subcontext install` first)"@)
}

/// Checking that the overlay has a work directory.
pub open spec fn installed_run(w: World, c: Checkout) -> (World, Outcome<()>) {
    let (w, there) = w.path_exists(c.overlay_work());
    if there {
        (w, Ok(()))
    } else {
        (w, Err(not_installed()))
    }
}

/// Check that the overlay has a work directory; returns it.
fn installed_work<B: Backend>(backend: &mut B, ctx: &CheckoutContext) -> (r: Result<
    String,
    Failure,
>)
    ensures
        ({
            let (w, there) = installed_run(old(backend).world(), ctx@);
            &&& final(backend).world() == w
            &&& outcome(r) == (match there {
                Ok(_) => Ok(ctx@.overlay_work()),
                Err(e) => Err(e),
            })
        }),
{
    let work = ctx.overlay_work_dir();
    if !backend.path_exists(work.as_str()) {
        return Err(fail("subcontext is not installed (run `git subcontext install` first)"));
    }
    Ok(work)
}

// ─── Adding ──────────────────────────────────────────────────────────

/// A URL without the slashes at its end.
pub open spec fn unslashed(url: Text) -> Text
    decreases url.len(),
{
    if url.len() > 0 && url.last() == '/' {
        unslashed(url.drop_last())
    } else {
        url
    }
}

/// What stands behind the last slash or colon of a URL.
pub open spec fn last_name(url: Text) -> Text
    decreases url.len(),
{
    if url.len() == 0 || url.last() == '/' || url.last() == ':' {
        Seq::empty()
    } else {
        last_name(url.drop_last()).push(url.last())
    }
}

/// The path that a URL gives a submodule: its last name, without `.git`; slashes
/// at the end do not count.
pub open spec fn path_from_url(url: Text) -> Text {
    let bare = unslashed(url);
    last_name(
        match without_suffix(bare, ".git"@) {
            Some(stem) => unslashed(stem),
            None => bare,
        },
    )
}

/// Take the slashes at the end of a URL away.
fn without_slashes(url: &str) -> (r: String)
    ensures
        r@ == unslashed(url@),
{
    let chars = chars_of(url);
    let mut to: usize = chars.len();
    assert(url@.take(to as int) =~= url@);
    while to > 0 && chars[to - 1] == '/'
        invariant
            to <= chars@.len(),
            chars@ == url@,
            unslashed(url@) == unslashed(url@.take(to as int)),
        decreases to,
    {
        assert(url@.take(to as int).drop_last() =~= url@.take(to - 1));
        to = to - 1;
    }
    assert(url@.subrange(0, to as int) =~= url@.take(to as int));
    piece(&chars, 0, to)
}

/// The last name in a URL.
fn behind_separators(url: &str) -> (r: String)
    ensures
        r@ == last_name(url@),
{
    let chars = chars_of(url);
    let mut from: usize = chars.len();
    assert(url@.take(from as int) =~= url@);
    assert(last_name(url@) + Seq::<char>::empty() =~= last_name(url@));
    assert(url@.skip(from as int) =~= Seq::<char>::empty());
    while from > 0 && chars[from - 1] != '/' && chars[from - 1] != ':'
        invariant
            from <= chars@.len(),
            chars@ == url@,
            last_name(url@) == last_name(url@.take(from as int)) + url@.skip(from as int),
        decreases from,
    {
        let ghost now = url@.take(from as int);
        assert(now.drop_last() =~= url@.take(from - 1));
        assert(last_name(now.drop_last()).push(now.last()) + url@.skip(from as int) =~= last_name(
            url@.take(from - 1),
        ) + url@.skip(from - 1));
        from = from - 1;
    }
    assert(Seq::<char>::empty() + url@.skip(from as int) =~= url@.skip(from as int));
    assert(url@.subrange(from as int, url@.len() as int) =~= url@.skip(from as int));
    piece(&chars, from, chars.len())
}

/// Derive a submodule path from its URL (like git submodule add does).
pub fn derive_path_from_url(url: &str) -> (r: String)
    ensures
        r@ == path_from_url(url@),
{
    let bare = without_slashes(url);
    match strip_suffix(bare.as_str(), ".git") {
        Some(stem) => behind_separators(without_slashes(stem.as_str()).as_str()),
        None => behind_separators(bare.as_str()),
    }
}

/// Adding a submodule at a path.
pub open spec fn add_at_run(w: World, c: Checkout, url: Text, path: Text) -> (World, Outcome<()>) {
    let work = c.overlay_work();
    let w = w.note("[subcontext] Adding submodule "@ + url + " at "@ + path + "..."@);
    let (w, added) = w.work_git(seq!["submodule"@, "add"@, url, path], work);
    match added {
        Err(e) => (w, Err(e)),
        Ok(_) => {
            let (w, staged) = w.work_git(seq!["add"@, "-A"@], work);
            match staged {
                Err(e) => (w, Err(e)),
                Ok(_) => {
                    let (w, committed) = w.work_git(
                        seq!["commit"@, "-m"@, "add submodule "@ + path],
                        work,
                    );
                    match committed {
                        Err(e) => (w, Err(e)),
                        Ok(_) => {
                            let (w, applied) = apply_run(w, c);
                            match applied {
                                Err(e) => (w, Err(e)),
                                Ok(_) => (
                                    w.note("[subcontext] Submodule added: "@ + path),
                                    Ok(()),
                                ),
                            }
                        },
                    }
                },
            }
        },
    }
}

/// Adding a submodule.
pub open spec fn add_run(w: World, c: Checkout, url: Text, path: Option<Text>) -> (
    World,
    Outcome<()>,
) {
    let (w, there) = installed_run(w, c);
    match there {
        Err(e) => (w, Err(e)),
        Ok(_) => add_at_run(
            w,
            c,
            url,
            match path {
                Some(path) => path,
                None => path_from_url(url),
            },
        ),
    }
}

/// Add a git submodule to the overlay.
pub fn add<B: Backend>(backend: &mut B, ctx: &CheckoutContext, url: &str, path: Option<&str>) -> (r:
    Result<(), Failure>)
    ensures
        (final(backend).world(), outcome(r)) == add_run(
            old(backend).world(),
            ctx@,
            url@,
            path.deep_view(),
        ),
{
    let work = installed_work(backend, ctx)?;
    let submodule_path: String = match path {
        Some(p) => p.to_owned(),
        None => derive_path_from_url(url),
    };
    let line = cat5(
        "[subcontext] Adding submodule ",
        url,
        " at ",
        submodule_path.as_str(),
        "...",
    );
    backend.note(line.as_str());

    // Add submodule in the overlay work directory
    run_work_git(
        backend,
        &argv4("submodule", "add", url, submodule_path.as_str()),
        work.as_str(),
    )?;

    // Commit the submodule addition
    run_work_git(backend, &argv2("add", "-A"), work.as_str())?;
    let message = cat("add submodule ", submodule_path.as_str());
    run_work_git(backend, &argv3("commit", "-m", message.as_str()), work.as_str())?;

    // Apply overlay (copies submodule files + .gitmodules to checkout root)
    apply_overlay(backend, ctx)?;
    let line = cat("[subcontext] Submodule added: ", submodule_path.as_str());
    backend.note(line.as_str());
    Ok(())
}

// ─── Updating ────────────────────────────────────────────────────────

/// Updating the submodules.
pub open spec fn update_run(w: World, c: Checkout) -> (World, Outcome<()>) {
    let (w, there) = installed_run(w, c);
    match there {
        Err(e) => (w, Err(e)),
        Ok(_) => {
            let (w, any) = w.path_exists(path_join(c.overlay_work(), ".gitmodules"@));
            if !any {
                (w.note("[subcontext] No submodules to update."@), Ok(()))
            } else {
                let w = w.note("[subcontext] Updating submodules..."@);
                let (w, updated) = w.work_git(
                    seq!["submodule"@, "update"@, "--init"@, "--recursive"@],
                    c.overlay_work(),
                );
                match updated {
                    Err(e) => (w, Err(e)),
                    Ok(_) => {
                        let (w, applied) = apply_run(w, c);
                        match applied {
                            Err(e) => (w, Err(e)),
                            Ok(_) => (w.note("[subcontext] Submodules updated."@), Ok(())),
                        }
                    },
                }
            }
        },
    }
}

/// Initialize and update overlay submodules.
pub fn update<B: Backend>(backend: &mut B, ctx: &CheckoutContext) -> (r: Result<(), Failure>)
    ensures
        (final(backend).world(), outcome(r)) == update_run(old(backend).world(), ctx@),
{
    let work = installed_work(backend, ctx)?;
    let modules = join_path(work.as_str(), ".gitmodules");
    if !backend.path_exists(modules.as_str()) {
        backend.note("[subcontext] No submodules to update.");
        return Ok(());
    }
    backend.note("[subcontext] Updating submodules...");

    // Force initialization (fatal on error)
    run_work_git(
        backend,
        &argv4("submodule", "update", "--init", "--recursive"),
        work.as_str(),
    )?;

    // Re-apply overlay to copy submodule contents to checkout root
    apply_overlay(backend, ctx)?;
    backend.note("[subcontext] Submodules updated.");
    Ok(())
}

// ─── Removing ────────────────────────────────────────────────────────

/// The path of a submodule, where a line of `git ls-files --stage` is one: its
/// mode is that of a link to a commit, and the path stands behind a tab.
pub open spec fn submodule_in(line: Text) -> Option<Text> {
    match without_prefix(line, "160000 "@) {
        None => None,
        Some(rest) => {
            let pieces = split_at(rest, '\t');
            if pieces.len() == 2 {
                Some(pieces[1])
            } else {
                None
            }
        },
    }
}

/// Is the path that of a submodule in one of the lines?
pub open spec fn lists_submodule(all: Seq<Text>, path: Text) -> bool {
    exists|i: int| 0 <= i < all.len() && submodule_in(#[trigger] all[i]) == Some(path)
}

/// Asking whether a path of the overlay is a submodule.
pub open spec fn is_submodule_run(w: World, c: Checkout, path: Text) -> (World, Outcome<bool>) {
    let (w, staged) = w.work_git(seq!["ls-files"@, "--stage"@], c.overlay_work());
    match staged {
        Err(e) => (w, Err(e)),
        Ok(staged) => (w, Ok(lists_submodule(lines_of(staged), path))),
    }
}

/// The path of a submodule in a line of `git ls-files --stage`.
fn submodule_of(line: &str) -> (r: Option<String>)
    ensures
        r.deep_view() == submodule_in(line@),
{
    match strip_prefix(line, "160000 ") {
        None => None,
        Some(rest) => {
            let pieces = split(rest.as_str(), '\t');
            assert(pieces.deep_view().len() == pieces@.len());
            if pieces.len() == 2 {
                assert(pieces.deep_view()[1] == pieces@[1]@);
                Some(pieces[1].clone())
            } else {
                None
            }
        },
    }
}

/// Is a path of the overlay a submodule?
pub fn is_overlay_submodule<B: Backend>(backend: &mut B, ctx: &CheckoutContext, path: &str) -> (r:
    Result<bool, Failure>)
    ensures
        (final(backend).world(), outcome(r)) == is_submodule_run(
            old(backend).world(),
            ctx@,
            path@,
        ),
{
    let work = ctx.overlay_work_dir();
    let staged = run_work_git(backend, &argv2("ls-files", "--stage"), work.as_str())?;
    let all = lines(staged.as_str());
    let ghost views = all.deep_view();
    let mut found = false;
    let mut i: usize = 0;
    while i < all.len() && !found
        invariant
            i <= all@.len(),
            views == all.deep_view(),
            !found ==> forall|j: int| 0 <= j < i ==> submodule_in(#[trigger] views[j]) != Some(path@),
            found ==> lists_submodule(views, path@),
        decreases all@.len() - i,
    {
        assert(views[i as int] == all@[i as int]@);
        if let Some(there) = submodule_of(all[i].as_str()) {
            if same(there.as_str(), path) {
                found = true;
                assert(submodule_in(views[i as int]) == Some(path@));
            }
        }
        i = i + 1;
    }
    Ok(found)
}

/// Cleaning up the git directory of a submodule.
pub open spec fn clean_gitdir_run(w: World, work: Text, path: Text) -> World {
    let dot_git = path_join(work, ".git"@);
    let (w, is_file) = w.is_file(dot_git);
    let (w, gitdir) = if is_file {
        let (w, content) = w.read(dot_git);
        match content {
            Err(_) => (w, None),
            Ok(content) => {
                let p = gitdir_in(content);
                (
                    w,
                    Some(
                        if is_rooted(p) {
                            p
                        } else {
                            path_join(work, p)
                        },
                    ),
                )
            },
        }
    } else {
        (w, Some(dot_git))
    };
    match gitdir {
        None => w,
        Some(gitdir) => {
            let modules = path_join(path_join(gitdir, "modules"@), path);
            let (w, there) = w.path_exists(modules);
            if there {
                w.remove_dir_all(modules).0
            } else {
                w
            }
        },
    }
}

/// Clean up the submodule's git directory from the worktree's modules/ folder.
pub fn clean_submodule_gitdir<B: Backend>(backend: &mut B, work: &str, submodule_path: &str)
    ensures
        final(backend).world() == clean_gitdir_run(
            old(backend).world(),
            work@,
            submodule_path@,
        ),
{
    let dot_git = join_path(work, ".git");
    let gitdir: String = if backend.is_file(dot_git.as_str()) {
        match backend.read_to_string(dot_git.as_str()) {
            Ok(content) => {
                let p = gitdir_text(content.as_str());
                if is_absolute(p.as_str()) {
                    p
                } else {
                    join_path(work, p.as_str())
                }
            },
            Err(_) => {
                return;
            },
        }
    } else {
        dot_git
    };
    let modules = join_path(gitdir.as_str(), "modules");
    let modules_path = join_path(modules.as_str(), submodule_path);
    if backend.path_exists(modules_path.as_str()) {
        let _ = backend.remove_dir_all(modules_path.as_str());
    }
}

/// Taking a submodule out of the checkout and out of the work directory.
pub open spec fn take_out_run(w: World, c: Checkout, path: Text) -> (World, Outcome<()>) {
    let work = c.overlay_work();
    let place = path_join(c.checkout_root, path);
    let (w, there) = w.path_exists(place);
    let (w, gone) = if there {
        w.remove_dir_all(place)
    } else {
        (w, Ok(()))
    };
    match gone {
        Err(e) => (w, Err(e)),
        Ok(_) => {
            let (w, off) = w.work_git(seq!["submodule"@, "deinit"@, "-f"@, path], work);
            match off {
                Err(e) => (w, Err(e)),
                Ok(_) => {
                    let (w, removed) = w.work_git(seq!["rm"@, "-f"@, path], work);
                    match removed {
                        Err(e) => (w, Err(e)),
                        Ok(_) => (clean_gitdir_run(w, work, path), Ok(())),
                    }
                },
            }
        },
    }
}

/// Removing a submodule that is one.
pub open spec fn remove_known_run(w: World, c: Checkout, path: Text) -> (World, Outcome<()>) {
    let w = w.note("[subcontext] Removing submodule "@ + path + "..."@);
    let (w, out) = take_out_run(w, c, path);
    match out {
        Err(e) => (w, Err(e)),
        Ok(_) => {
            let (w, committed) = commit_work_run(
                w,
                c.overlay_work(),
                "remove submodule "@ + path,
            );
            match committed {
                Err(e) => (w, Err(e)),
                Ok(_) => {
                    let (w, applied) = apply_run(w, c);
                    match applied {
                        Err(e) => (w, Err(e)),
                        Ok(_) => (w.note("[subcontext] Submodule removed: "@ + path), Ok(())),
                    }
                },
            }
        },
    }
}

/// Removing a submodule.
pub open spec fn remove_run(w: World, c: Checkout, path: Text) -> (World, Outcome<()>) {
    let (w, there) = installed_run(w, c);
    match there {
        Err(e) => (w, Err(e)),
        Ok(_) => {
            let (w, known) = is_submodule_run(w, c, path);
            match known {
                Err(e) => (w, Err(e)),
                Ok(false) => (w, Err(failed(path + " is not a submodule in the overlay"@))),
                Ok(true) => remove_known_run(w, c, path),
            }
        },
    }
}

/// Take a submodule out of the checkout and out of the work directory.
fn take_out<B: Backend>(backend: &mut B, ctx: &CheckoutContext, work: &str, path: &str) -> (r:
    Result<(), Failure>)
    requires
        work@ == ctx@.overlay_work(),
    ensures
        (final(backend).world(), outcome(r)) == take_out_run(old(backend).world(), ctx@, path@),
{
    // Remove submodule directory from checkout root
    let checkout_path = join_path(ctx.checkout_root.as_str(), path);
    if backend.path_exists(checkout_path.as_str()) {
        backend.remove_dir_all(checkout_path.as_str())?;
    }
    // Deinit and remove in work dir

    run_work_git(backend, &argv4("submodule", "deinit", "-f", path), work)?;
    run_work_git(backend, &argv3("rm", "-f", path), work)?;

    // Clean up modules directory in gitdir
    clean_submodule_gitdir(backend, work, path);
    Ok(())
}

/// Remove a submodule from the overlay.
pub fn remove<B: Backend>(backend: &mut B, ctx: &CheckoutContext, path: &str) -> (r: Result<
    (),
    Failure,
>)
    ensures
        (final(backend).world(), outcome(r)) == remove_run(old(backend).world(), ctx@, path@),
{
    let work = installed_work(backend, ctx)?;

    // Verify the path is actually a submodule
    if !is_overlay_submodule(backend, ctx, path)? {
        let message = cat(path, " is not a submodule in the overlay");
        return Err(fail(message.as_str()));
    }
    let line = cat3("[subcontext] Removing submodule ", path, "...");
    backend.note(line.as_str());
    take_out(backend, ctx, work.as_str(), path)?;

    // Commit
    let message = cat("remove submodule ", path);
    commit_work(backend, work.as_str(), message.as_str())?;

    // Re-apply overlay to sync .gitmodules and excludes
    apply_overlay(backend, ctx)?;
    let line = cat("[subcontext] Submodule removed: ", path);
    backend.note(line.as_str());
    Ok(())
}

// ─── Laws ────────────────────────────────────────────────────────────

/// Only what is a submodule is removed: for any other path removing fails, and
/// all that is done is to ask.
pub proof fn only_submodules_are_removed(w: World, c: Checkout, path: Text)
    requires
        installed_run(w, c).1 is Ok,
        is_submodule_run(installed_run(w, c).0, c, path).1 == Ok::<bool, Seq<Text>>(false),
    ensures
        remove_run(w, c, path) == (
            is_submodule_run(installed_run(w, c).0, c, path).0,
            Err::<(), Seq<Text>>(failed(path + " is not a submodule in the overlay"@)),
        ),
{
}

} // verus!
