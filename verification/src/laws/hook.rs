//! What a checkout and a commit of the host do to the overlay.

use vstd::prelude::*;

use crate::git::{overlay_branch_of, repo_path, subcontext_path, work_path, Checkout};
use crate::hook::{
    checkout_run, commit_run, enter_run, ensure_branch_run, fork_source_run, leave_run,
    main_source_run, null_sha, old_hook_path, old_hook_run, told,
};
use crate::laws::overlay::{
    branch_created, group_kept, lemma_apply, lemma_branch_created, lemma_save, lemma_sync_back,
    lemma_unapply, overlay_applied, overlay_saved, overlay_withdrawn, survivors_saved,
};
use crate::overlay::{
    branch_at_run, branch_exists_run, commit_work_run, create_work_run, list_run, main_overlay_run,
    save_file_run, save_files_run, save_run, switch_run, sync_back_run, unapply_run,
};
use crate::paths::path_join;
use crate::text::Text;
use crate::trace::{bare_call, did, git_call, goes_on, group_did, lemma_did_before, Step};
use crate::world::{Call, World};

verus! {

broadcast use {group_did, group_kept};

// ─── Requests that change neither the checkout nor the branch ────────

/// Does the request change nothing in the checkout and leave the work directory
/// on its branch? It may ask and read, copy a file from the checkout to the same
/// path in the work directory, create a directory, and have git tell of the work
/// directory, stage and commit in it.
pub open spec fn leaves_alone(c: Checkout, call: Call) -> bool {
    match call {
        Call::Read(_) | Call::Exists(_) | Call::IsFile(_) | Call::CreateDirAll(_) => true,
        Call::Copy { from, to } => exists|file: Text|
            from == path_join(c.checkout_root, file) && to == #[trigger] path_join(
                c.overlay_work(),
                file,
            ),
        Call::Git { args, cwd, .. } => cwd == c.overlay_work() && args.len() > 0 && (args[0]
            == "symbolic-ref"@ || args[0] == "ls-files"@ || args[0] == "add"@ || args[0]
            == "status"@ || args[0] == "commit"@),
        _ => false,
    }
}

/// Were only requests made that change neither the checkout nor the branch of the
/// work directory?
#[verifier::opaque]
pub open spec fn left_alone(before: World, after: World, c: Checkout) -> bool {
    &&& goes_on(before, after)
    &&& forall|n: int|
        before.calls.len() <= n < after.calls.len() ==> leaves_alone(c, #[trigger] after.calls[n])
}

broadcast proof fn lemma_alone_start(w: World, c: Checkout)
    ensures
        #[trigger] left_alone(w, w, c),
{
    reveal(left_alone);
    assert(w.calls.take(w.calls.len() as int) =~= w.calls);
}

broadcast proof fn lemma_alone_next(w0: World, w: World, c: Checkout, call: Call)
    requires
        left_alone(w0, w, c),
        leaves_alone(c, call),
    ensures
        #[trigger] left_alone(w0, w.asked(call), c),
{
    reveal(left_alone);
    let after = w.asked(call);
    assert(after.calls.take(w0.calls.len() as int) =~= w.calls.take(w0.calls.len() as int));
    assert forall|n: int| w0.calls.len() <= n < after.calls.len() implies leaves_alone(
        c,
        #[trigger] after.calls[n],
    ) by {
        if n < w.calls.len() {
            assert(after.calls[n] == w.calls[n]);
        }
    }
}

proof fn lemma_alone_git(w0: World, w: World, c: Checkout, args: Seq<Text>)
    requires
        left_alone(w0, w, c),
        args.len() > 0,
        args[0] == "symbolic-ref"@ || args[0] == "ls-files"@ || args[0] == "add"@ || args[0]
            == "status"@ || args[0] == "commit"@,
    ensures
        left_alone(w0, w.work_git(args, c.overlay_work()).0, c),
{
    broadcast use lemma_alone_next;

}

proof fn lemma_alone_list(w0: World, w: World, c: Checkout)
    requires
        left_alone(w0, w, c),
    ensures
        left_alone(w0, list_run(w, c).0, c),
{
    broadcast use lemma_alone_next;

    lemma_alone_git(w0, w.path_exists(c.overlay_work()).0, c, seq!["ls-files"@]);
}

proof fn lemma_alone_file(w0: World, w: World, c: Checkout, file: Text)
    requires
        left_alone(w0, w, c),
    ensures
        left_alone(w0, save_file_run(w, c, file).0, c),
{
    broadcast use lemma_alone_next;

    let call = Call::Copy {
        from: path_join(c.checkout_root, file),
        to: path_join(c.overlay_work(), file),
    };
    assert(leaves_alone(c, call));
}

proof fn lemma_alone_files(w0: World, w: World, c: Checkout, files: Seq<Text>, i: nat)
    requires
        left_alone(w0, w, c),
    ensures
        left_alone(w0, save_files_run(w, c, files, i).0, c),
    decreases files.len() - i,
{
    if i < files.len() {
        lemma_alone_file(w0, w, c, files[i as int]);
        let (w1, saved) = save_file_run(w, c, files[i as int]);
        if saved is Ok {
            lemma_alone_files(w0, w1, c, files, i + 1);
        }
    }
}

proof fn lemma_alone_commit(w0: World, w: World, c: Checkout, message: Text)
    requires
        left_alone(w0, w, c),
    ensures
        left_alone(w0, commit_work_run(w, c.overlay_work(), message).0, c),
{
    let work = c.overlay_work();
    lemma_alone_git(w0, w, c, seq!["add"@, "-A"@]);
    let w1 = w.work_git(seq!["add"@, "-A"@], work).0;
    lemma_alone_git(w0, w1, c, seq!["status"@, "--porcelain"@]);
    let w2 = w1.work_git(seq!["status"@, "--porcelain"@], work).0;
    lemma_alone_git(w0, w2, c, seq!["commit"@, "-m"@, message]);
}

proof fn lemma_alone_save(w0: World, w: World, c: Checkout, message: Text)
    requires
        left_alone(w0, w, c),
    ensures
        left_alone(w0, save_run(w, c, message).0, c),
{
    broadcast use lemma_alone_next;

    let (w1, there) = w.path_exists(c.overlay_work());
    lemma_alone_list(w0, w1, c);
    let (w2, files) = list_run(w1, c);
    if files is Ok {
        lemma_alone_files(w0, w2, c, files->Ok_0, 0);
        lemma_alone_commit(w0, save_files_run(w2, c, files->Ok_0, 0).0, c, message);
    }
}

proof fn lemma_alone_branch(w0: World, w: World, c: Checkout)
    requires
        left_alone(w0, w, c),
    ensures
        left_alone(w0, branch_at_run(w, c.overlay_work()).0, c),
{
    broadcast use lemma_alone_next;

    lemma_alone_git(
        w0,
        w.path_exists(c.overlay_work()).0,
        c,
        seq!["symbolic-ref"@, "--short"@, "HEAD"@],
    );
}

// ─── Checkout ────────────────────────────────────────────────────────

/// Whenever it was asked between the two worlds, was there something at the path?
pub open spec fn always_there(before: World, after: World, path: Text) -> bool {
    forall|n: nat|
        before.calls.len() <= n < after.calls.len() && #[trigger] after.calls[n as int]
            == Call::Exists(path) ==> (after.flag)(n)
}

/// Was the overlay of the checkout saved before anything else was done than to
/// ask and to save?
pub open spec fn saved_first(before: World, after: World, c: Checkout) -> bool {
    exists|saved: World| #[trigger]
        overlay_saved(before, saved, c, "auto-save (pre-checkout)"@) && left_alone(
            before,
            saved,
            c,
        ) && did(saved, after, Seq::empty())
}

proof fn lemma_there(w0: World, w: World, after: World, path: Text)
    requires
        always_there(w0, after, path),
        did(w0, w, Seq::empty()),
        did(w.asked(Call::Exists(path)), after, Seq::empty()),
    ensures
        (w.flag)(w.calls.len()),
{
    reveal(did);
    let n = w.calls.len();
    let next = w.asked(Call::Exists(path));
    assert(next.calls[n as int] == Call::Exists(path));
    assert(after.calls.take(next.calls.len() as int)[n as int] == after.calls[n as int]);
}

proof fn lemma_kept_by_leave(w0: World, w: World, c: Checkout, steps: Seq<Step>)
    requires
        did(w0, w, steps),
    ensures
        did(w0, leave_run(w, c).0, steps),
{
    let w1 = branch_at_run(w, c.overlay_work()).0;
    assert(did(w0, w1, steps));
    let w2 = save_run(w1, c, "auto-save (pre-checkout)"@).0;
    assert(did(w0, w2, steps));
    let w3 = unapply_run(w2, c).0;
    assert(did(w0, w3, steps));
    let w4 = sync_back_run(w3, c).0;
    assert(did(w0, w4, steps));
}

proof fn lemma_kept_by_fork_source(
    w0: World,
    w: World,
    c: Checkout,
    prev: Text,
    new: Text,
    prev_overlay: Option<Text>,
    steps: Seq<Step>,
)
    requires
        did(w0, w, steps),
    ensures
        did(w0, fork_source_run(w, c, prev, new, prev_overlay).0, steps),
{
}

proof fn lemma_kept_by_ensure(
    w0: World,
    w: World,
    c: Checkout,
    branch: Text,
    prev: Text,
    new: Text,
    prev_overlay: Option<Text>,
    steps: Seq<Step>,
)
    requires
        did(w0, w, steps),
    ensures
        did(w0, ensure_branch_run(w, c, branch, prev, new, prev_overlay).0, steps),
{
    let w1 = branch_exists_run(w, c.main_root, branch).0;
    assert(did(w0, w1, steps));
    lemma_kept_by_fork_source(w0, w1, c, prev, new, prev_overlay, steps);
}

proof fn lemma_kept_by_enter(
    w0: World,
    w: World,
    c: Checkout,
    prev: Text,
    new: Text,
    work_exists: bool,
    prev_overlay: Option<Text>,
    steps: Seq<Step>,
)
    requires
        did(w0, w, steps),
    ensures
        did(w0, enter_run(w, c, prev, new, work_exists, prev_overlay).0, steps),
{
    let (w1, name) = crate::git::current_branch_run(w, c.checkout_root);
    assert(did(w0, w1, steps));
    if name is Ok {
        let branch = overlay_branch_of(name->Ok_0);
        lemma_kept_by_ensure(w0, w1, c, branch, prev, new, prev_overlay, steps);
        let (w2, made) = ensure_branch_run(w1, c, branch, prev, new, prev_overlay);
        if made is Ok {
            assert(did(w0, switch_run(w2, c, branch).0, steps));
            assert(did(w0, create_work_run(w2, c, branch).0, steps));
        }
    }
}

/// What the leaving of an overlay does, counted from an earlier world.
proof fn lemma_leave(w0: World, w: World, after: World, c: Checkout)
    requires
        did(w0, w, Seq::empty()),
        left_alone(w0, w, c),
        did(leave_run(w, c).0, after, Seq::empty()),
        always_there(w0, after, c.overlay_work()),
    ensures
        match leave_run(w, c).1 {
            Ok(_) => exists|saved: World, out: World| #[trigger]
                overlay_saved(w0, saved, c, "auto-save (pre-checkout)"@) && left_alone(
                    w0,
                    saved,
                    c,
                ) && #[trigger] overlay_withdrawn(saved, out, c) && survivors_saved(
                    out,
                    leave_run(w, c).0,
                    c,
                ) && did(saved, after, Seq::empty()),
            Err(_) => {
                &&& did(w0, leave_run(w, c).0, seq![Step::Refused])
                &&& left_alone(w0, leave_run(w, c).0, c) || saved_first(w0, after, c)
            },
        },
{
    let work = c.overlay_work();
    let message = "auto-save (pre-checkout)"@;
    let end = leave_run(w, c).0;
    let w1 = branch_at_run(w, work).0;
    assert(did(w0, w1, Seq::empty()));
    lemma_alone_branch(w0, w, c);
    lemma_alone_save(w0, w1, c, message);
    lemma_save(w0, w1, c, message);
    let (w2, saved) = save_run(w1, c, message);
    assert(did(w0, w2, Seq::empty()));
    let asked = w1.asked(Call::Exists(work));
    assert(did(asked, w2, Seq::empty())) by {
        assert(did(asked, asked, Seq::empty()));
        let w3 = list_run(asked, c).0;
        assert(did(asked, w3, Seq::empty()));
    }
    let (w3, unapplied) = unapply_run(w2, c);
    let (w4, back) = sync_back_run(w3, c);
    assert(did(w2, w3, Seq::empty()));
    assert(did(w2, w4, Seq::empty()));
    assert(did(w2, end, Seq::empty()));
    lemma_did_before(asked, w2, end, Seq::empty());
    lemma_did_before(asked, end, after, Seq::empty());
    lemma_did_before(w2, end, after, Seq::empty());
    lemma_there(w0, w1, after, work);
    if saved is Ok {
        assert(overlay_saved(w0, w2, c, message));
        assert(saved_first(w0, after, c));
        lemma_unapply(w2, w2, c);
        lemma_unapply(w0, w2, c);
        if unapplied is Ok {
            assert(did(w0, w3, Seq::empty()));
            lemma_sync_back(w3, w3, c);
            lemma_sync_back(w0, w3, c);
        }
    }
}

/// A checkout of a branch that finds a work directory saves the overlay of the
/// checkout before it does anything that could lose a change: each file of the
/// overlay that the checkout has is copied to the work directory, and what has
/// changed is committed, before any request that changes the checkout or the
/// branch of the work directory. Where saving fails, no such request is made.
pub proof fn checkout_saves_before_it_changes(
    w: World,
    c: Checkout,
    prev: Text,
    new: Text,
    flag: Text,
)
    requires
        flag != "0"@,
        always_there(w, checkout_run(w, c, prev, new, flag).0, subcontext_path(c.main_root)),
        always_there(w, checkout_run(w, c, prev, new, flag).0, c.overlay_work()),
    ensures
        ({
            let (after, done) = checkout_run(w, c, prev, new, flag);
            &&& done is Ok ==> saved_first(w, after, c)
            &&& done is Err ==> did(w, after, seq![Step::Refused]) && (saved_first(w, after, c)
                || left_alone(w, after, c))
        }),
{
    lemma_checkout(w, c, prev, new, flag);
}

/// A checkout of a branch that finds a work directory saves the overlay, takes it
/// out of the checkout, copies back what survived, and then checks out in the
/// work directory the overlay branch of the branch that the host is on, and
/// applies that overlay.
pub proof fn checkout_moves_to_the_overlay_of_the_branch(
    w: World,
    c: Checkout,
    prev: Text,
    new: Text,
    flag: Text,
)
    requires
        flag != "0"@,
        always_there(w, checkout_run(w, c, prev, new, flag).0, subcontext_path(c.main_root)),
        always_there(w, checkout_run(w, c, prev, new, flag).0, c.overlay_work()),
        checkout_run(w, c, prev, new, flag).1 is Ok,
    ensures
        exists|saved: World, out: World, back: World, ready: World, name: Text| #[trigger]
            overlay_saved(w, saved, c, "auto-save (pre-checkout)"@) && #[trigger] overlay_withdrawn(
                saved,
                out,
                c,
            ) && #[trigger] survivors_saved(out, back, c) && #[trigger] did(
                back,
                ready,
                moved(c, name),
            ) && overlay_applied(ready, checkout_run(w, c, prev, new, flag).0, c),
{
    lemma_checkout(w, c, prev, new, flag);
}

/// The work directory is checked out on the overlay branch of the branch that
/// the host told it is on.
pub open spec fn moved(c: Checkout, name: Text) -> Seq<Step> {
    seq![
        Step::Told(git_call(seq!["symbolic-ref"@, "--short"@, "HEAD"@], c.checkout_root), name),
    ].push(Step::WorkWell(seq!["checkout"@, overlay_branch_of(name)], c.overlay_work()))
}

proof fn lemma_checkout(w: World, c: Checkout, prev: Text, new: Text, flag: Text)
    requires
        flag != "0"@,
        always_there(w, checkout_run(w, c, prev, new, flag).0, subcontext_path(c.main_root)),
        always_there(w, checkout_run(w, c, prev, new, flag).0, c.overlay_work()),
    ensures
        ({
            let (after, done) = checkout_run(w, c, prev, new, flag);
            &&& done is Ok ==> saved_first(w, after, c)
            &&& done is Err ==> did(w, after, seq![Step::Refused]) && (saved_first(w, after, c)
                || left_alone(w, after, c))
            &&& done is Ok ==> exists|
                saved: World,
                out: World,
                back: World,
                ready: World,
                name: Text,
            | #[trigger]
                overlay_saved(w, saved, c, "auto-save (pre-checkout)"@)
                    && #[trigger] overlay_withdrawn(saved, out, c) && #[trigger] survivors_saved(
                    out,
                    back,
                    c,
                ) && #[trigger] did(back, ready, moved(c, name)) && overlay_applied(
                    ready,
                    after,
                    c,
                )
        }),
{
    broadcast use lemma_alone_start;
    broadcast use lemma_alone_next;

    let (after, done) = checkout_run(w, c, prev, new, flag);
    let work = c.overlay_work();
    let (w1, there) = w.path_exists(subcontext_path(c.main_root));
    let (w2, work_exists) = w1.path_exists(work);
    let (w3, left) = leave_run(w2, c);
    lemma_kept_by_leave(w1, w2, c, Seq::empty());
    lemma_kept_by_leave(w2, w2, c, Seq::empty());
    if there && !work_exists {
        lemma_kept_by_enter(w1, w2, c, prev, new, false, None, Seq::empty());
        lemma_kept_by_enter(w2, w2, c, prev, new, false, None, Seq::empty());
    }
    if there && work_exists && left is Ok {
        lemma_kept_by_enter(w1, w3, c, prev, new, true, left->Ok_0, Seq::empty());
        lemma_kept_by_enter(w2, w3, c, prev, new, true, left->Ok_0, Seq::empty());
        lemma_kept_by_enter(w3, w3, c, prev, new, true, left->Ok_0, Seq::empty());
    }
    lemma_there(w, w, after, subcontext_path(c.main_root));
    lemma_there(w, w1, after, work);
    assert(there && work_exists);
    assert(did(w, w2, Seq::empty()));
    assert(left_alone(w, w2, c));
    assert(did(w3, after, Seq::empty()));
    lemma_leave(w, w2, after, c);
    if left is Ok {
        let (saved, out) = choose|saved: World, out: World| #[trigger]
            overlay_saved(w, saved, c, "auto-save (pre-checkout)"@) && left_alone(w, saved, c)
                && #[trigger] overlay_withdrawn(saved, out, c) && survivors_saved(out, w3, c)
                && did(saved, after, Seq::empty());
        assert(saved_first(w, after, c));
        lemma_kept_by_leave(w, w2, c, Seq::empty());
        lemma_enter(w, w3, c, prev, new, left->Ok_0);
        lemma_enter(w3, w3, c, prev, new, left->Ok_0);
    }
}

/// What the entering of an overlay in a work directory does, counted from an
/// earlier world.
proof fn lemma_enter(
    w0: World,
    w: World,
    c: Checkout,
    prev: Text,
    new: Text,
    prev_overlay: Option<Text>,
)
    requires
        did(w0, w, Seq::empty()),
    ensures
        ({
            let (after, done) = enter_run(w, c, prev, new, true, prev_overlay);
            match done {
                Ok(_) => exists|ready: World, name: Text| #[trigger]
                    did(w0, ready, moved(c, name)) && overlay_applied(ready, after, c),
                Err(_) => did(w0, after, seq![Step::Refused]),
            }
        }),
{
    let (w1, name) = crate::git::current_branch_run(w, c.checkout_root);
    assert(did(w0, w1, Seq::empty()));
    if name is Ok {
        let name = name->Ok_0;
        let branch = overlay_branch_of(name);
        let first = seq![
            Step::Told(
                git_call(seq!["symbolic-ref"@, "--short"@, "HEAD"@], c.checkout_root),
                name,
            ),
        ];
        assert(did(w0, w1, first));
        lemma_kept_by_ensure(w0, w1, c, branch, prev, new, prev_overlay, first);
        lemma_kept_by_ensure(w0, w1, c, branch, prev, new, prev_overlay, Seq::empty());
        lemma_ensure_refused(w0, w1, c, branch, prev, new, prev_overlay);
        let (w2, made) = ensure_branch_run(w1, c, branch, prev, new, prev_overlay);
        if made is Ok {
            let (w3, ready) = switch_run(w2, c, branch);
            if ready is Ok {
                assert(did(
                    w0,
                    w3,
                    first.push(Step::WorkWell(seq!["checkout"@, branch], c.overlay_work())),
                ));
                assert(did(w0, w3, moved(c, name)));
                assert(did(w0, w3, Seq::empty()));
                lemma_apply(w3, w3, c);
                lemma_apply(w0, w3, c);
            } else {
                assert(did(w0, w3, seq![Step::Refused]));
            }
        }
    }
}

proof fn lemma_ensure_refused(
    w0: World,
    w: World,
    c: Checkout,
    branch: Text,
    prev: Text,
    new: Text,
    prev_overlay: Option<Text>,
)
    requires
        did(w0, w, Seq::empty()),
    ensures
        ({
            let (after, done) = ensure_branch_run(w, c, branch, prev, new, prev_overlay);
            done is Err ==> did(w0, after, seq![Step::Refused])
        }),
{
    let w1 = branch_exists_run(w, c.main_root, branch).0;
    assert(did(w0, w1, Seq::empty()));
    lemma_kept_by_fork_source(w0, w1, c, prev, new, prev_overlay, Seq::empty());
}

/// A work directory is added on the overlay branch of the branch that the host
/// told it is on.
pub open spec fn settled(c: Checkout, name: Text) -> Seq<Step> {
    seq![
        Step::Told(git_call(seq!["symbolic-ref"@, "--short"@, "HEAD"@], c.checkout_root), name),
    ].push(
        Step::BareWell(
            seq!["worktree"@, "add"@, c.overlay_work(), overlay_branch_of(name)],
            repo_path(c.main_root),
            c.main_root,
        ),
    )
}

/// A checkout that finds the subcontext but no work directory (a new worktree)
/// makes one on the overlay branch of the branch that the host is on, and applies
/// that overlay. It fails only where a request does.
pub proof fn checkout_without_a_work_directory_makes_one(
    w: World,
    c: Checkout,
    prev: Text,
    new: Text,
    flag: Text,
)
    requires
        flag != "0"@,
        ({
            let (w1, there) = w.path_exists(subcontext_path(c.main_root));
            there && !w1.path_exists(c.overlay_work()).1
        }),
    ensures
        ({
            let (after, done) = checkout_run(w, c, prev, new, flag);
            match done {
                Ok(_) => exists|ready: World, name: Text| #[trigger]
                    did(w, ready, settled(c, name)) && overlay_applied(ready, after, c),
                Err(_) => did(w, after, seq![Step::Refused]),
            }
        }),
{
    let (after, done) = checkout_run(w, c, prev, new, flag);
    let w1 = w.path_exists(subcontext_path(c.main_root)).0;
    let w2 = w1.path_exists(c.overlay_work()).0;
    assert(did(w, w2, Seq::empty()));
    let (w3, name) = crate::git::current_branch_run(w2, c.checkout_root);
    if name is Ok {
        let name = name->Ok_0;
        let branch = overlay_branch_of(name);
        let first = seq![
            Step::Told(
                git_call(seq!["symbolic-ref"@, "--short"@, "HEAD"@], c.checkout_root),
                name,
            ),
        ];
        assert(did(w, w3, first));
        assert(did(w, w3, Seq::empty()));
        lemma_kept_by_ensure(w, w3, c, branch, prev, new, None, first);
        lemma_kept_by_ensure(w, w3, c, branch, prev, new, None, Seq::empty());
        lemma_ensure_refused(w, w3, c, branch, prev, new, None);
        let (w4, made) = ensure_branch_run(w3, c, branch, prev, new, None);
        if made is Ok {
            let (w5, ready) = create_work_run(w4, c, branch);
            assert(did(w, w5, Seq::empty()));
            if ready is Ok {
                let added = Step::BareWell(
                    seq!["worktree"@, "add"@, c.overlay_work(), branch],
                    repo_path(c.main_root),
                    c.main_root,
                );
                assert(did(w, w5, first.push(added)));
                assert(did(w, w5, settled(c, name)));
                lemma_apply(w5, w5, c);
                lemma_apply(w, w5, c);
            } else {
                assert(did(w, w5, seq![Step::Refused]));
            }
        }
    }
}

/// Asking git whether the subcontext repo has a branch.
pub open spec fn branch_question(root: Text, branch: Text) -> Call {
    bare_call(seq!["show-ref"@, "--verify"@, "refs/heads/"@ + branch], repo_path(root), root)
}

/// Asking git whether the checkout has a commit.
pub open spec fn head_question(c: Checkout) -> Call {
    git_call(seq!["rev-parse"@, "--verify"@, "HEAD"@], c.checkout_root)
}

/// Asking git for a common ancestor.
pub open spec fn ancestor_question(c: Checkout, prev: Text, new: Text) -> Call {
    git_call(seq!["merge-base"@, prev, new], c.checkout_root)
}

/// Was the overlay branch forked from `src`: where it was not there, the checkout
/// has a commit and the subcontext repo has `src`?
pub open spec fn forked(
    w0: World,
    w: World,
    c: Checkout,
    branch: Text,
    src: Text,
) -> bool {
    did(
        w0,
        w,
        seq![Step::Ill(branch_question(c.main_root, branch))].push(
            Step::Well(head_question(c)),
        ).push(Step::Well(branch_question(c.main_root, src))).push(
            Step::BareWell(seq!["branch"@, branch, src], repo_path(c.main_root), c.main_root),
        ),
    )
}

/// Are the two commits taken to be related without asking git?
pub open spec fn taken_as_related(prev: Text, new: Text) -> bool {
    prev == new || prev == null_sha() || new == null_sha()
}

/// Is `src` what a new branch of this checkout forks: the overlay branch that it
/// was on, with a related commit, or for a linked worktree the one that the main
/// checkout is on?
pub open spec fn fork_reason(
    w0: World,
    w: World,
    c: Checkout,
    prev: Text,
    new: Text,
    prev_overlay: Option<Text>,
    src: Text,
) -> bool {
    ||| prev_overlay == Some(src) && (taken_as_related(prev, new) || did(
        w0,
        w,
        seq![Step::Well(ancestor_question(c, prev, new))],
    ))
    ||| c.worktree_name is Some && did(
        w0,
        w,
        seq![
            Step::WorkTold(
                seq!["symbolic-ref"@, "--short"@, "HEAD"@],
                work_path(c.main_root),
                src,
            ),
        ],
    ) && (prev_overlay is Some ==> did(
        w0,
        w,
        seq![Step::Ill(branch_question(c.main_root, prev_overlay->0))],
    ))
}

/// Is there nothing that a new branch of this checkout forks: no commit, an
/// unrelated one, or no overlay branch to fork?
pub open spec fn nothing_to_fork(
    w0: World,
    w: World,
    c: Checkout,
    prev: Text,
    new: Text,
    prev_overlay: Option<Text>,
) -> bool {
    ||| did(w0, w, seq![Step::Ill(head_question(c))])
    ||| prev_overlay is Some && !taken_as_related(prev, new) && did(
        w0,
        w,
        seq![Step::Well(branch_question(c.main_root, prev_overlay->0))].push(
            Step::Ill(ancestor_question(c, prev, new)),
        ),
    )
    ||| {
        &&& prev_overlay is Some ==> did(
            w0,
            w,
            seq![Step::Ill(branch_question(c.main_root, prev_overlay->0))],
        )
        &&& c.worktree_name is None || did(
            w0,
            w,
            seq![Step::No(Call::Exists(work_path(c.main_root)))],
        ) || did(w0, w, seq![Step::Refused].push(Step::Refused)) || did(
            w0,
            w,
            seq![
                Step::WorkTold(
                    seq!["symbolic-ref"@, "--short"@, "HEAD"@],
                    work_path(c.main_root),
                    Seq::empty(),
                ),
            ],
        )
    }
}

/// The overlay branch of the host's branch is there after a checkout: it was
/// there, it was forked from what it should fork, or it was created empty where
/// there is nothing to fork.
pub proof fn overlay_branch_is_made_from_its_source(
    w: World,
    c: Checkout,
    branch: Text,
    prev: Text,
    new: Text,
    prev_overlay: Option<Text>,
)
    requires
        ensure_branch_run(w, c, branch, prev, new, prev_overlay).1 is Ok,
    ensures
        ({
            let after = ensure_branch_run(w, c, branch, prev, new, prev_overlay).0;
            ||| did(w, after, seq![Step::Well(branch_question(c.main_root, branch))])
            ||| exists|src: Text| #[trigger]
                forked(w, after, c, branch, src) && fork_reason(
                    w,
                    after,
                    c,
                    prev,
                    new,
                    prev_overlay,
                    src,
                )
            ||| nothing_to_fork(w, after, c, prev, new, prev_overlay) && did(
                w,
                after,
                seq![Step::Ill(branch_question(c.main_root, branch))],
            ) && exists|tree: Text, commit: Text| #[trigger]
                branch_created(w, after, c.main_root, branch, tree, commit)
        }),
{
    let after = ensure_branch_run(w, c, branch, prev, new, prev_overlay).0;
    let (w1, there) = branch_exists_run(w, c.main_root, branch);
    let missing = seq![Step::Ill(branch_question(c.main_root, branch))];
    if !there {
        assert(did(w, w1, missing));
        lemma_fork_source(w, w1, c, prev, new, prev_overlay, missing);
        let (w2, source) = fork_source_run(w1, c, prev, new, prev_overlay);
        match source {
            Some(src) => {
                assert(did(
                    w,
                    w2,
                    missing.push(Step::Well(head_question(c))).push(
                        Step::Well(branch_question(c.main_root, src)),
                    ),
                ));
                assert(forked(w, after, c, branch, src));
                assert(fork_reason(w, after, c, prev, new, prev_overlay, src));
            },
            None => {
                lemma_kept_by_fork_source(w, w1, c, prev, new, prev_overlay, missing);
                lemma_kept_by_fork_source(w, w1, c, prev, new, prev_overlay, Seq::empty());
                lemma_branch_created(w, w2, c.main_root, branch);
                assert(nothing_to_fork(w, after, c, prev, new, prev_overlay));
            },
        }
    }
}

proof fn lemma_fork_source(
    w0: World,
    w: World,
    c: Checkout,
    prev: Text,
    new: Text,
    prev_overlay: Option<Text>,
    before: Seq<Step>,
)
    requires
        did(w0, w, before),
        did(w0, w, seq![Step::Refused]),
        did(w0, w, Seq::empty()),
    ensures
        ({
            let (after, source) = fork_source_run(w, c, prev, new, prev_overlay);
            match source {
                Some(src) => did(
                    w0,
                    after,
                    before.push(Step::Well(head_question(c))).push(
                        Step::Well(branch_question(c.main_root, src)),
                    ),
                ) && fork_reason(w0, after, c, prev, new, prev_overlay, src),
                None => nothing_to_fork(w0, after, c, prev, new, prev_overlay),
            }
        }),
{
    let (after, source) = fork_source_run(w, c, prev, new, prev_overlay);
    let (w1, head) = w.git(seq!["rev-parse"@, "--verify"@, "HEAD"@], c.checkout_root);
    if head is Ok {
        let steps = before.push(Step::Well(head_question(c)));
        assert(did(w0, w1, steps));
        assert(did(w0, w1, seq![Step::Refused]));
        assert(did(w0, w1, Seq::empty()));
        match prev_overlay {
            None => {
                lemma_main_source(w0, w1, c, steps);
            },
            Some(src) => {
                let (w2, there) = branch_exists_run(w1, c.main_root, src);
                if there {
                    assert(did(
                        w0,
                        w2,
                        steps.push(Step::Well(branch_question(c.main_root, src))),
                    ));
                    assert(did(w0, w2, seq![Step::Well(branch_question(c.main_root, src))]));
                } else {
                    assert(did(w0, w2, seq![Step::Ill(branch_question(c.main_root, src))]));
                    assert(did(w0, w2, steps));
                    assert(did(w0, w2, seq![Step::Refused]));
                    assert(did(w0, w2, Seq::empty()));
                    lemma_main_source(w0, w2, c, steps);
                    if c.worktree_name is Some {
                        lemma_kept_by_main_overlay(
                            w0,
                            w2,
                            c,
                            seq![Step::Ill(branch_question(c.main_root, src))],
                        );
                    }
                }
            },
        }
    }
}

proof fn lemma_kept_by_main_overlay(w0: World, w: World, c: Checkout, steps: Seq<Step>)
    requires
        did(w0, w, steps),
    ensures
        did(w0, main_overlay_run(w, c.main_root).0, steps),
{
}

proof fn lemma_main_source(w0: World, w: World, c: Checkout, before: Seq<Step>)
    requires
        did(w0, w, before),
        did(w0, w, seq![Step::Refused]),
        did(w0, w, Seq::empty()),
    ensures
        ({
            let (after, source) = main_source_run(w, c);
            let main = work_path(c.main_root);
            let question = seq!["symbolic-ref"@, "--short"@, "HEAD"@];
            match source {
                Some(src) => c.worktree_name is Some && did(
                    w0,
                    after,
                    before.push(Step::Well(branch_question(c.main_root, src))),
                ) && did(w0, after, seq![Step::WorkTold(question, main, src)]),
                None => c.worktree_name is None || did(
                    w0,
                    after,
                    seq![Step::No(Call::Exists(main))],
                ) || did(w0, after, seq![Step::Refused].push(Step::Refused)) || did(
                    w0,
                    after,
                    seq![Step::WorkTold(question, main, Seq::empty())],
                ),
            }
        }),
{
    let main = work_path(c.main_root);
    let question = seq!["symbolic-ref"@, "--short"@, "HEAD"@];
    if c.worktree_name is Some {
        let (w1, there) = w.path_exists(main);
        if there {
            assert(did(w0, w1, seq![Step::Refused]));
            let (w2, told) = w1.work_git(question, main);
            if told is Ok {
                assert(did(w0, w2, seq![Step::WorkTold(question, main, told->Ok_0)]));
                assert(did(w0, w2, before));
                assert(did(w0, w2, seq![Step::Refused]));
                if told->Ok_0.len() == 0 {
                    assert(told->Ok_0 =~= Seq::<char>::empty());
                }
            } else {
                lemma_work_twice_refused(w0, w1, question, main);
            }
        }
    }
}

proof fn lemma_work_twice_refused(w0: World, w: World, args: Seq<Text>, work: Text)
    requires
        did(w0, w, seq![Step::Refused]),
        w.work_git(args, work).1 is Err,
    ensures
        did(w0, w.work_git(args, work).0, seq![Step::Refused].push(Step::Refused)),
{
}

// ─── Commit, and the user's own hooks ────────────────────────────────

/// A commit of the host has the overlay saved where the subcontext and the work
/// directory are there. That fails only where a request does.
pub proof fn commit_saves_the_overlay(w: World, c: Checkout)
    requires
        ({
            let (w1, there) = w.path_exists(subcontext_path(c.main_root));
            there && w1.path_exists(c.overlay_work()).1
        }),
    ensures
        ({
            let (after, done) = commit_run(w, c);
            match done {
                Ok(_) => overlay_saved(w, after, c, "auto-save (post-commit)"@) && left_alone(
                    w,
                    after,
                    c,
                ),
                Err(_) => did(w, after, seq![Step::Refused]) && left_alone(w, after, c),
            }
        }),
{
    broadcast use lemma_alone_start;
    broadcast use lemma_alone_next;

    let w1 = w.path_exists(subcontext_path(c.main_root)).0;
    assert(did(w, w1, Seq::empty()));
    lemma_save(w, w1, c, "auto-save (post-commit)"@);
    lemma_alone_save(w, w1, c, "auto-save (post-commit)"@);
}

/// The user's own hook, where there is one that may be executed, is run in the
/// repository with the arguments that git gave, and the hook succeeds only where
/// that one does.
pub proof fn old_hook_is_run(w: World, root: Text, name: Text, args: Seq<Text>)
    ensures
        ({
            let (after, done) = old_hook_run(w, root, name, args);
            let path = old_hook_path(root, name);
            let run = Step::Well(Call::Run { program: path, args, cwd: root });
            let (w1, there) = w.path_exists(path);
            let (w2, mode) = w1.metadata_mode(path);
            &&& there && mode is Ok && mode->Ok_0 & 0o111 != 0 && done is Ok ==> did(
                w,
                after,
                seq![Step::Yes(Call::Exists(path))].push(run),
            ) && (w.exit)(w2.calls.len())->Ok_0.success
            &&& !there ==> done is Ok
        }),
{
}

/// A failure of the overlay is told to the user, in a line that names the hook.
pub proof fn overlay_failure_is_told(w: World, name: Text, e: Seq<Text>)
    ensures
        did(
            w,
            told(w, name, Err(e)),
            seq![
                Step::Just(
                    Call::Note(
                        "[subcontext] warning: "@ + name + " hook failed: "@
                            + crate::text::joined(e, ": "@),
                    ),
                ),
            ],
        ),
        told(w, name, Ok(())) == w,
{
}

} // verus!
