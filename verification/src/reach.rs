//! What the operations on an overlay can touch.
//!
//! Saving never changes the checkout, applying writes nothing but the files of
//! the overlay and the exclude file, and unapplying removes nothing but files
//! that the overlay lists.

use vstd::prelude::*;

use crate::git::{gitdir_run, Checkout};
use crate::overlay::{
    apply_file_run, apply_files_run, apply_run, commit_work_run, ensure_parent_run, exclude_path,
    list_run, place_in_context_run, place_run, remove_empty_run, save_file_run, save_files_run,
    save_run, sync_run, tracked_run, unapply_run, untracked_run, withdraw_files_run, withdraw_run,
};
use crate::paths::{lemma_parent_shorter, parent_of, parts, path_join};
use crate::text::Text;
use crate::world::{Call, World};

verus! {

/// Has nothing been asked between the two worlds but what is allowed?
pub open spec fn asked_only(
    before: World,
    after: World,
    allowed: spec_fn(Call) -> bool,
) -> bool {
    &&& before.calls.len() <= after.calls.len()
    &&& before.calls == after.calls.take(before.calls.len() as int)
    &&& forall|i: int|
        before.calls.len() <= i < after.calls.len() ==> allowed(#[trigger] after.calls[i])
}

proof fn lemma_nothing_asked(w: World, allowed: spec_fn(Call) -> bool)
    ensures
        asked_only(w, w, allowed),
{
    assert(w.calls.take(w.calls.len() as int) =~= w.calls);
}

proof fn lemma_one_more(w0: World, w: World, call: Call, allowed: spec_fn(Call) -> bool)
    requires
        asked_only(w0, w, allowed),
        allowed(call),
    ensures
        asked_only(w0, w.asked(call), allowed),
{
    let after = w.asked(call);
    assert(after.calls.take(w0.calls.len() as int) =~= w.calls.take(w0.calls.len() as int));
    assert forall|i: int| w0.calls.len() <= i < after.calls.len() implies allowed(
        #[trigger] after.calls[i],
    ) by {
        if i < w.calls.len() {
            assert(after.calls[i] == w.calls[i]);
        }
    }
}

/// Is the call a git command in this directory?
pub open spec fn git_at(call: Call, dir: Text) -> bool {
    call is Git && call->Git_cwd == dir
}

/// Does the call only look?
pub open spec fn looks(call: Call) -> bool {
    call is Exists || call is IsFile || call is Read
}

/// Does the call copy a file of the overlay from the first directory to the
/// second?
pub open spec fn copies(call: Call, from: Text, to: Text) -> bool {
    exists|file: Text|
        call == (Call::Copy { from: #[trigger] path_join(from, file), to: path_join(to, file) })
}

/// Does the call create the directory that a file needs below a directory?
pub open spec fn makes_room(call: Call, to: Text) -> bool {
    exists|file: Text| makes_room_for(call, #[trigger] path_join(to, file))
}

/// Does the call create the directory that a path lies in?
pub open spec fn makes_room_for(call: Call, path: Text) -> bool {
    call is CreateDirAll && parent_of(path) == Some(call->CreateDirAll_0)
}

/// What saving an overlay may ask for: looking, git in the work directory, and
/// copies from the checkout to the work directory.
pub open spec fn save_may(c: Checkout, call: Call) -> bool {
    ||| looks(call)
    ||| git_at(call, c.overlay_work())
    ||| copies(call, c.checkout_root, c.overlay_work())
    ||| makes_room(call, c.overlay_work())
}

/// What applying an overlay may ask for: looking, git, copies from the work
/// directory to the checkout, and writing the exclude file.
pub open spec fn apply_may(c: Checkout, call: Call) -> bool {
    ||| looks(call)
    ||| git_at(call, c.overlay_work())
    ||| git_at(call, c.checkout_root)
    ||| copies(call, c.overlay_work(), c.checkout_root)
    ||| makes_room(call, c.checkout_root)
    ||| call is Write && call->Write_path == exclude_path(c.main_root)
    ||| makes_room_for(call, exclude_path(c.main_root))
}

/// What unapplying an overlay of these files may ask for: looking, git, and
/// removing the files from the checkout, with directories other than its root.
pub open spec fn unapply_may(c: Checkout, files: Seq<Text>, call: Call) -> bool {
    ||| looks(call)
    ||| git_at(call, c.overlay_work())
    ||| git_at(call, c.checkout_root)
    ||| call is RemoveFile && exists|i: int|
        0 <= i < files.len() && call->RemoveFile_0 == path_join(
            c.checkout_root,
            #[trigger] files[i],
        )
    ||| call is RemoveDir && parts(call->RemoveDir_0) != parts(c.checkout_root)
}

// ─── Single steps ────────────────────────────────────────────────────

proof fn lemma_work_git(
    w0: World,
    w: World,
    args: Seq<Text>,
    work: Text,
    allowed: spec_fn(Call) -> bool,
)
    requires
        asked_only(w0, w, allowed),
        forall|call: Call| looks(call) || git_at(call, work) ==> #[trigger] allowed(call),
    ensures
        asked_only(w0, w.work_git(args, work).0, allowed),
{
    let dot_git = path_join(work, ".git"@);
    let (w1, is_file) = w.is_file(dot_git);
    lemma_one_more(w0, w, Call::IsFile(dot_git), allowed);
    let (w2, gitdir) = gitdir_run(w, work);
    if is_file {
        lemma_one_more(w0, w1, Call::Read(dot_git), allowed);
    }
    if gitdir is Ok {
        let call = Call::Git {
            args,
            cwd: work,
            env_set: seq![("GIT_DIR"@, gitdir->Ok_0), ("GIT_WORK_TREE"@, work)],
            env_remove: seq![
                "GIT_INDEX_FILE"@,
                "GIT_OBJECT_DIRECTORY"@,
                "GIT_ALTERNATE_OBJECT_DIRECTORIES"@,
            ],
        };
        lemma_one_more(w0, w2, call, allowed);
    }
}

proof fn lemma_git(
    w0: World,
    w: World,
    args: Seq<Text>,
    cwd: Text,
    allowed: spec_fn(Call) -> bool,
)
    requires
        asked_only(w0, w, allowed),
        forall|call: Call| git_at(call, cwd) ==> #[trigger] allowed(call),
    ensures
        asked_only(w0, w.git(args, cwd).0, allowed),
{
    let call = Call::Git { args, cwd, env_set: Seq::empty(), env_remove: Seq::empty() };
    lemma_one_more(w0, w, call, allowed);
}

proof fn lemma_list(w0: World, w: World, c: Checkout, allowed: spec_fn(Call) -> bool)
    requires
        asked_only(w0, w, allowed),
        forall|call: Call|
            looks(call) || git_at(call, c.overlay_work()) ==> #[trigger] allowed(call),
    ensures
        asked_only(w0, list_run(w, c).0, allowed),
{
    let call = Call::Exists(c.overlay_work());
    lemma_one_more(w0, w, call, allowed);
    lemma_work_git(w0, w.asked(call), seq!["ls-files"@], c.overlay_work(), allowed);
}

proof fn lemma_place(
    w0: World,
    w: World,
    from: Text,
    to: Text,
    message: Text,
    allowed: spec_fn(Call) -> bool,
)
    requires
        asked_only(w0, w, allowed),
        forall|call: Call| makes_room_for(call, to) ==> #[trigger] allowed(call),
        allowed(Call::Copy { from, to }),
    ensures
        asked_only(w0, place_run(w, from, to).0, allowed),
        asked_only(w0, place_in_context_run(w, from, to, message).0, allowed),
{
    let (w1, made) = ensure_parent_run(w, to);
    if parent_of(to) is Some {
        let call = Call::CreateDirAll(parent_of(to)->0);
        assert(makes_room_for(call, to));
        lemma_one_more(w0, w, call, allowed);
    }
    lemma_one_more(w0, w1, Call::Copy { from, to }, allowed);
}

// ─── Saving ──────────────────────────────────────────────────────────

proof fn lemma_save_files(w0: World, w: World, c: Checkout, files: Seq<Text>, i: nat)
    requires
        asked_only(w0, w, |call: Call| save_may(c, call)),
    ensures
        asked_only(w0, save_files_run(w, c, files, i).0, |call: Call| save_may(c, call)),
    decreases files.len() - i,
{
    let allowed = |call: Call| save_may(c, call);
    if i < files.len() {
        let file = files[i as int];
        let src = path_join(c.checkout_root, file);
        let dest = path_join(c.overlay_work(), file);
        let (w1, there) = w.path_exists(src);
        lemma_one_more(w0, w, Call::Exists(src), allowed);
        if there {
            assert(copies(Call::Copy { from: src, to: dest }, c.checkout_root, c.overlay_work()));
            assert forall|call: Call| makes_room_for(call, dest) implies #[trigger] allowed(
                call,
            ) by {
                assert(makes_room(call, c.overlay_work()));
            }
            lemma_place(w0, w1, src, dest, Seq::empty(), allowed);
        }
        let (w2, saved) = save_file_run(w, c, file);
        if saved is Ok {
            lemma_save_files(w0, w2, c, files, i + 1);
        }
    }
}

proof fn lemma_commit_work(w0: World, w: World, c: Checkout, message: Text)
    requires
        asked_only(w0, w, |call: Call| save_may(c, call)),
    ensures
        asked_only(
            w0,
            commit_work_run(w, c.overlay_work(), message).0,
            |call: Call| save_may(c, call),
        ),
{
    let allowed = |call: Call| save_may(c, call);
    let work = c.overlay_work();
    lemma_work_git(w0, w, seq!["add"@, "-A"@], work, allowed);
    let w1 = w.work_git(seq!["add"@, "-A"@], work).0;
    lemma_work_git(w0, w1, seq!["status"@, "--porcelain"@], work, allowed);
    let w2 = w1.work_git(seq!["status"@, "--porcelain"@], work).0;
    lemma_work_git(w0, w2, seq!["commit"@, "-m"@, message], work, allowed);
}

/// Saving never changes the checkout: it looks, runs git in the work directory,
/// and copies files from the checkout to the work directory.
pub proof fn saving_spares_the_checkout(w: World, c: Checkout, message: Text)
    ensures
        asked_only(w, save_run(w, c, message).0, |call: Call| save_may(c, call)),
{
    let allowed = |call: Call| save_may(c, call);
    lemma_nothing_asked(w, allowed);
    let (w1, there) = w.path_exists(c.overlay_work());
    lemma_one_more(w, w, Call::Exists(c.overlay_work()), allowed);
    if there {
        lemma_list(w, w1, c, allowed);
        let (w2, files) = list_run(w1, c);
        if files is Ok {
            lemma_save_files(w, w2, c, files->Ok_0, 0);
            let (w3, saved) = save_files_run(w2, c, files->Ok_0, 0);
            if saved is Ok {
                lemma_commit_work(w, w3, c, message);
            }
        }
    }
}

// ─── Applying ────────────────────────────────────────────────────────

proof fn lemma_apply_files(w0: World, w: World, c: Checkout, files: Seq<Text>, i: nat)
    requires
        asked_only(w0, w, |call: Call| apply_may(c, call)),
    ensures
        asked_only(w0, apply_files_run(w, c, files, i).0, |call: Call| apply_may(c, call)),
    decreases files.len() - i,
{
    let allowed = |call: Call| apply_may(c, call);
    if i < files.len() {
        let file = files[i as int];
        let src = path_join(c.overlay_work(), file);
        let dest = path_join(c.checkout_root, file);
        let message = "failed to copy overlay file: "@ + file;
        assert(copies(Call::Copy { from: src, to: dest }, c.overlay_work(), c.checkout_root));
        assert forall|call: Call| makes_room_for(call, dest) implies #[trigger] allowed(call) by {
            assert(makes_room(call, c.checkout_root));
        }
        lemma_place(w0, w, src, dest, message, allowed);
        let w1 = place_in_context_run(w, src, dest, message).0;
        lemma_git(
            w0,
            w1,
            seq!["ls-files"@, "--error-unmatch"@, file],
            c.checkout_root,
            allowed,
        );
        let w2 = tracked_run(w1, c, file).0;
        lemma_git(
            w0,
            w2,
            seq!["update-index"@, "--skip-worktree"@, file],
            c.checkout_root,
            allowed,
        );
        let (w3, applied) = apply_file_run(w, c, file);
        if applied is Ok {
            lemma_apply_files(w0, w3, c, files, i + 1);
        }
    }
}

proof fn lemma_untracked(
    w0: World,
    w: World,
    c: Checkout,
    files: Seq<Text>,
    i: nat,
    found: Seq<Text>,
)
    requires
        asked_only(w0, w, |call: Call| apply_may(c, call)),
    ensures
        asked_only(w0, untracked_run(w, c, files, i, found).0, |call: Call| apply_may(c, call)),
    decreases files.len() - i,
{
    let allowed = |call: Call| apply_may(c, call);
    if i < files.len() {
        let file = files[i as int];
        lemma_git(
            w0,
            w,
            seq!["ls-files"@, "--error-unmatch"@, file],
            c.checkout_root,
            allowed,
        );
        let (w1, known) = tracked_run(w, c, file);
        lemma_untracked(
            w0,
            w1,
            c,
            files,
            i + 1,
            if known {
                found
            } else {
                found.push(file)
            },
        );
    }
}

proof fn lemma_sync(w0: World, w: World, c: Checkout)
    requires
        asked_only(w0, w, |call: Call| apply_may(c, call)),
    ensures
        asked_only(w0, sync_run(w, c).0, |call: Call| apply_may(c, call)),
{
    let allowed = |call: Call| apply_may(c, call);
    let path = exclude_path(c.main_root);
    let (w1, made) = ensure_parent_run(w, path);
    if parent_of(path) is Some {
        let call = Call::CreateDirAll(parent_of(path)->0);
        assert(makes_room_for(call, path));
        lemma_one_more(w0, w, call, allowed);
    }
    if made is Ok {
        lemma_one_more(w0, w1, Call::Read(path), allowed);
        let w2 = w1.read(path).0;
        lemma_list(w0, w2, c, allowed);
        let (w3, files) = list_run(w2, c);
        if files is Ok {
            lemma_untracked(w0, w3, c, files->Ok_0, 0, Seq::empty());
            let w4 = untracked_run(w3, c, files->Ok_0, 0, Seq::empty()).0;
            let after = sync_run(w, c).0;
            let call = after.calls.last();
            assert(after == w4.asked(call));
            lemma_one_more(w0, w4, call, allowed);
        }
    }
}

/// Applying writes nothing but the files of the overlay, copied from the work
/// directory to the checkout, and the exclude file.
pub proof fn applying_writes_only_the_overlay(w: World, c: Checkout)
    ensures
        asked_only(w, apply_run(w, c).0, |call: Call| apply_may(c, call)),
{
    let allowed = |call: Call| apply_may(c, call);
    lemma_nothing_asked(w, allowed);
    lemma_list(w, w, c, allowed);
    let (w1, files) = list_run(w, c);
    if files is Ok {
        lemma_apply_files(w, w1, c, files->Ok_0, 0);
        let (w2, applied) = apply_files_run(w1, c, files->Ok_0, 0);
        if applied is Ok {
            lemma_sync(w, w2, c);
        }
    }
}

// ─── Unapplying ──────────────────────────────────────────────────────

proof fn lemma_remove_empty(
    w0: World,
    w: World,
    dir: Text,
    c: Checkout,
    files: Seq<Text>,
)
    requires
        asked_only(w0, w, |call: Call| unapply_may(c, files, call)),
    ensures
        asked_only(
            w0,
            remove_empty_run(w, dir, c.checkout_root),
            |call: Call| unapply_may(c, files, call),
        ),
    decreases dir.len(),
{
    let allowed = |call: Call| unapply_may(c, files, call);
    lemma_parent_shorter(dir);
    if parts(dir) != parts(c.checkout_root) {
        lemma_one_more(w0, w, Call::RemoveDir(dir), allowed);
        let (w1, removed) = w.remove_dir(dir);
        if removed is Ok && parent_of(dir) is Some {
            lemma_remove_empty(w0, w1, parent_of(dir)->0, c, files);
        }
    }
}

proof fn lemma_withdraw(w0: World, w: World, c: Checkout, files: Seq<Text>, i: int)
    requires
        0 <= i < files.len(),
        asked_only(w0, w, |call: Call| unapply_may(c, files, call)),
    ensures
        asked_only(
            w0,
            withdraw_run(w, c, files[i]),
            |call: Call| unapply_may(c, files, call),
        ),
{
    let allowed = |call: Call| unapply_may(c, files, call);
    let file = files[i];
    let root = c.checkout_root;
    lemma_git(w0, w, seq!["ls-files"@, "--error-unmatch"@, file], root, allowed);
    let (w1, known) = tracked_run(w, c, file);
    if known {
        let first = seq!["update-index"@, "--no-skip-worktree"@, file];
        lemma_git(w0, w1, first, root, allowed);
        lemma_git(w0, w1.git(first, root).0, seq!["checkout"@, "--"@, file], root, allowed);
    } else {
        let path = path_join(root, file);
        let (w2, there) = w1.path_exists(path);
        lemma_one_more(w0, w1, Call::Exists(path), allowed);
        let call = Call::RemoveFile(path);
        assert(call->RemoveFile_0 == path_join(root, files[i]));
        assert(allowed(call));
        lemma_one_more(w0, w2, call, allowed);
        let w3 = if there {
            w2.remove_file(path).0
        } else {
            w2
        };
        if parent_of(path) is Some {
            lemma_remove_empty(w0, w3, parent_of(path)->0, c, files);
        }
    }
}

proof fn lemma_withdraw_files(w0: World, w: World, c: Checkout, files: Seq<Text>, i: nat)
    requires
        asked_only(w0, w, |call: Call| unapply_may(c, files, call)),
    ensures
        asked_only(
            w0,
            withdraw_files_run(w, c, files, i),
            |call: Call| unapply_may(c, files, call),
        ),
    decreases files.len() - i,
{
    if i < files.len() {
        lemma_withdraw(w0, w, c, files, i as int);
        lemma_withdraw_files(w0, withdraw_run(w, c, files[i as int]), c, files, i + 1);
    }
}

/// Unapplying removes no file but those that the overlay lists, and never the
/// root of the checkout.
pub proof fn unapplying_removes_only_the_overlay(w: World, c: Checkout, files: Seq<Text>)
    requires
        list_run(w, c).1 == Ok::<Seq<Text>, Seq<Text>>(files),
    ensures
        asked_only(w, unapply_run(w, c).0, |call: Call| unapply_may(c, files, call)),
{
    let allowed = |call: Call| unapply_may(c, files, call);
    lemma_nothing_asked(w, allowed);
    lemma_list(w, w, c, allowed);
    lemma_withdraw_files(w, list_run(w, c).0, c, files, 0);
}

} // verus!
