//! What the operations on an overlay do to the files and to git.

use vstd::prelude::*;

use crate::excludes::{cleaned, synced};
use crate::git::{gitdir_run, repo_path, Checkout};
use crate::overlay::{
    add_file_run, apply_file_run, apply_files_run, apply_run, branch_at_run, branch_exists_run,
    clean_run, commit_work_run, create_branch_run, create_work_run, ensure_parent_run, exclude_path,
    fork_branch_run, list_run, nonempty, remove_empty_run, remove_file_run, save_file_run,
    save_files_run, save_run, survivor_run, survivors_run, switch_run, sync_back_run, sync_run,
    tracked_run, unapply_run, untracked_run, withdraw_files_run, withdraw_run,
};
use crate::paths::{parent_of, path_join};
use crate::text::{lines_of, Text};
use crate::trace::{bare_call, did, git_call, group_did, is_work_git, lemma_did_next, Step};
use crate::world::{Call, World};

verus! {

broadcast use group_did;

// ─── What was done before an operation stays done ────────────────────

pub broadcast proof fn lemma_kept_by_work_git(
    w0: World,
    w: World,
    args: Seq<Text>,
    work: Text,
    steps: Seq<Step>,
)
    requires
        did(w0, w, steps),
    ensures
        #[trigger] did(w0, w.work_git(args, work).0, steps),
{
}

/// A git command in a work directory that succeeds is a step, with its answer.
pub broadcast proof fn lemma_work_told(
    w0: World,
    w: World,
    args: Seq<Text>,
    work: Text,
    steps: Seq<Step>,
    text: Text,
)
    requires
        did(w0, w, steps),
        w.work_git(args, work).1 == Ok::<Text, Seq<Text>>(text),
    ensures
        #[trigger] did(
            w0,
            w.work_git(args, work).0,
            steps.push(Step::WorkTold(args, work, text)),
        ),
{
    let (w1, gitdir) = gitdir_run(w, work);
    assert(did(w0, w1, steps));
    let env_set = seq![("GIT_DIR"@, gitdir->Ok_0), ("GIT_WORK_TREE"@, work)];
    assert(env_set.len() == 2);
    assert(env_set[0].0 == "GIT_DIR"@);
    assert(env_set[1] == ("GIT_WORK_TREE"@, work));
    let env_remove = seq![
        "GIT_INDEX_FILE"@,
        "GIT_OBJECT_DIRECTORY"@,
        "GIT_ALTERNATE_OBJECT_DIRECTORIES"@,
    ];
    let call = Call::Git { args, cwd: work, env_set, env_remove };
    assert(is_work_git(call, args, work));
    assert(w.work_git(args, work).0 == w1.asked(call));
    lemma_did_next(w0, w1, call, steps, Step::WorkTold(args, work, text));
}

/// A git command in a work directory that succeeds is a step.
pub broadcast proof fn lemma_work_well(
    w0: World,
    w: World,
    args: Seq<Text>,
    work: Text,
    steps: Seq<Step>,
)
    requires
        did(w0, w, steps),
        w.work_git(args, work).1 is Ok,
    ensures
        #[trigger] did(w0, w.work_git(args, work).0, steps.push(Step::WorkWell(args, work))),
{
    let (w1, gitdir) = gitdir_run(w, work);
    assert(did(w0, w1, steps));
    let env_set = seq![("GIT_DIR"@, gitdir->Ok_0), ("GIT_WORK_TREE"@, work)];
    assert(env_set.len() == 2);
    assert(env_set[0].0 == "GIT_DIR"@);
    assert(env_set[1] == ("GIT_WORK_TREE"@, work));
    let env_remove = seq![
        "GIT_INDEX_FILE"@,
        "GIT_OBJECT_DIRECTORY"@,
        "GIT_ALTERNATE_OBJECT_DIRECTORIES"@,
    ];
    let call = Call::Git { args, cwd: work, env_set, env_remove };
    assert(is_work_git(call, args, work));
    assert(w.work_git(args, work).0 == w1.asked(call));
    lemma_did_next(w0, w1, call, steps, Step::WorkWell(args, work));
}

/// A git command in a work directory fails only where a request does.
pub broadcast proof fn lemma_work_refused(w0: World, w: World, args: Seq<Text>, work: Text)
    requires
        did(w0, w, Seq::empty()),
        w.work_git(args, work).1 is Err,
    ensures
        #[trigger] did(w0, w.work_git(args, work).0, seq![Step::Refused]),
{
}

pub broadcast proof fn lemma_kept_by_list(w0: World, w: World, c: Checkout, steps: Seq<Step>)
    requires
        did(w0, w, steps),
    ensures
        #[trigger] did(w0, list_run(w, c).0, steps),
{
}

pub broadcast proof fn lemma_kept_by_save_files(
    w0: World,
    w: World,
    c: Checkout,
    files: Seq<Text>,
    i: nat,
    steps: Seq<Step>,
)
    requires
        did(w0, w, steps),
    ensures
        #[trigger] did(w0, save_files_run(w, c, files, i).0, steps),
    decreases files.len() - i,
{
    if i < files.len() {
        let (w1, saved) = save_file_run(w, c, files[i as int]);
        assert(did(w0, w1, steps));
        if saved is Ok {
            lemma_kept_by_save_files(w0, w1, c, files, i + 1, steps);
        }
    }
}

pub broadcast proof fn lemma_kept_by_commit(
    w0: World,
    w: World,
    work: Text,
    message: Text,
    steps: Seq<Step>,
)
    requires
        did(w0, w, steps),
    ensures
        #[trigger] did(w0, commit_work_run(w, work, message).0, steps),
{
    broadcast use lemma_kept_by_work_git;

}

pub broadcast proof fn lemma_kept_by_save(
    w0: World,
    w: World,
    c: Checkout,
    message: Text,
    steps: Seq<Step>,
)
    requires
        did(w0, w, steps),
    ensures
        #[trigger] did(w0, save_run(w, c, message).0, steps),
{
    broadcast use {lemma_kept_by_list, lemma_kept_by_save_files, lemma_kept_by_commit};

}

pub broadcast proof fn lemma_kept_by_apply_files(
    w0: World,
    w: World,
    c: Checkout,
    files: Seq<Text>,
    i: nat,
    steps: Seq<Step>,
)
    requires
        did(w0, w, steps),
    ensures
        #[trigger] did(w0, apply_files_run(w, c, files, i).0, steps),
    decreases files.len() - i,
{
    if i < files.len() {
        let (w1, applied) = apply_file_run(w, c, files[i as int]);
        assert(did(w0, w1, steps));
        if applied is Ok {
            lemma_kept_by_apply_files(w0, w1, c, files, i + 1, steps);
        }
    }
}

pub broadcast proof fn lemma_kept_by_untracked(
    w0: World,
    w: World,
    c: Checkout,
    files: Seq<Text>,
    i: nat,
    found: Seq<Text>,
    steps: Seq<Step>,
)
    requires
        did(w0, w, steps),
    ensures
        #[trigger] did(w0, untracked_run(w, c, files, i, found).0, steps),
    decreases files.len() - i,
{
    if i < files.len() {
        let (w1, known) = tracked_run(w, c, files[i as int]);
        assert(did(w0, w1, steps));
        let more = if known {
            found
        } else {
            found.push(files[i as int])
        };
        lemma_kept_by_untracked(w0, w1, c, files, i + 1, more, steps);
    }
}

pub broadcast proof fn lemma_kept_by_sync(w0: World, w: World, c: Checkout, steps: Seq<Step>)
    requires
        did(w0, w, steps),
    ensures
        #[trigger] did(w0, sync_run(w, c).0, steps),
{
    broadcast use {lemma_kept_by_list, lemma_kept_by_untracked};

}

pub broadcast proof fn lemma_kept_by_apply(w0: World, w: World, c: Checkout, steps: Seq<Step>)
    requires
        did(w0, w, steps),
    ensures
        #[trigger] did(w0, apply_run(w, c).0, steps),
{
    broadcast use {lemma_kept_by_list, lemma_kept_by_apply_files, lemma_kept_by_sync};

}

pub broadcast proof fn lemma_kept_by_remove_empty(
    w0: World,
    w: World,
    dir: Text,
    stop_at: Text,
    steps: Seq<Step>,
)
    requires
        did(w0, w, steps),
    ensures
        #[trigger] did(w0, remove_empty_run(w, dir, stop_at), steps),
    decreases dir.len(),
{
    crate::paths::lemma_parent_shorter(dir);
    if crate::paths::parts(dir) != crate::paths::parts(stop_at) {
        let (w1, removed) = w.remove_dir(dir);
        assert(did(w0, w1, steps));
        if removed is Ok && parent_of(dir) is Some {
            lemma_kept_by_remove_empty(w0, w1, parent_of(dir)->0, stop_at, steps);
        }
    }
}

pub broadcast proof fn lemma_kept_by_withdraw(
    w0: World,
    w: World,
    c: Checkout,
    file: Text,
    steps: Seq<Step>,
)
    requires
        did(w0, w, steps),
    ensures
        #[trigger] did(w0, withdraw_run(w, c, file), steps),
{
    broadcast use lemma_kept_by_remove_empty;

}

pub broadcast proof fn lemma_kept_by_withdraw_files(
    w0: World,
    w: World,
    c: Checkout,
    files: Seq<Text>,
    i: nat,
    steps: Seq<Step>,
)
    requires
        did(w0, w, steps),
    ensures
        #[trigger] did(w0, withdraw_files_run(w, c, files, i), steps),
    decreases files.len() - i,
{
    if i < files.len() {
        lemma_kept_by_withdraw(w0, w, c, files[i as int], steps);
        lemma_kept_by_withdraw_files(
            w0,
            withdraw_run(w, c, files[i as int]),
            c,
            files,
            i + 1,
            steps,
        );
    }
}

pub broadcast proof fn lemma_kept_by_unapply(w0: World, w: World, c: Checkout, steps: Seq<Step>)
    requires
        did(w0, w, steps),
    ensures
        #[trigger] did(w0, unapply_run(w, c).0, steps),
{
    broadcast use {lemma_kept_by_list, lemma_kept_by_withdraw_files};

}

pub broadcast proof fn lemma_kept_by_survivors(
    w0: World,
    w: World,
    c: Checkout,
    files: Seq<Text>,
    i: nat,
    steps: Seq<Step>,
)
    requires
        did(w0, w, steps),
    ensures
        #[trigger] did(w0, survivors_run(w, c, files, i).0, steps),
    decreases files.len() - i,
{
    if i < files.len() {
        let (w1, saved) = survivor_run(w, c, files[i as int]);
        assert(did(w0, w1, steps));
        if saved is Ok {
            lemma_kept_by_survivors(w0, w1, c, files, i + 1, steps);
        }
    }
}

pub broadcast proof fn lemma_kept_by_sync_back(w0: World, w: World, c: Checkout, steps: Seq<Step>)
    requires
        did(w0, w, steps),
    ensures
        #[trigger] did(w0, sync_back_run(w, c).0, steps),
{
    broadcast use {lemma_kept_by_list, lemma_kept_by_survivors};

}

pub broadcast group group_kept {
    lemma_work_told,
    lemma_work_well,
    lemma_work_refused,
    lemma_kept_by_work_git,
    lemma_kept_by_list,
    lemma_kept_by_save_files,
    lemma_kept_by_commit,
    lemma_kept_by_save,
    lemma_kept_by_apply_files,
    lemma_kept_by_untracked,
    lemma_kept_by_sync,
    lemma_kept_by_apply,
    lemma_kept_by_remove_empty,
    lemma_kept_by_withdraw,
    lemma_kept_by_withdraw_files,
    lemma_kept_by_unapply,
    lemma_kept_by_survivors,
    lemma_kept_by_sync_back,
}

// ─── The files of an overlay ─────────────────────────────────────────

/// Is the file on the list that git gave? There is none where there is no work
/// directory.
pub open spec fn on_list(list: Option<Text>, file: Text) -> bool {
    match list {
        None => false,
        Some(output) => lines_of(output).contains(file) && file.len() > 0,
    }
}

/// Was this the list of the files in the work directory?
pub open spec fn listed(w0: World, w: World, work: Text, list: Option<Text>) -> bool {
    match list {
        None => did(w0, w, seq![Step::No(Call::Exists(work))]),
        Some(output) => did(
            w0,
            w,
            seq![Step::Yes(Call::Exists(work))].push(
                Step::WorkTold(seq!["ls-files"@], work, output),
            ),
        ),
    }
}

proof fn lemma_nonempty(items: Seq<Text>, item: Text)
    ensures
        nonempty(items).contains(item) <==> items.contains(item) && item.len() > 0,
    decreases items.len(),
{
    if items.len() > 0 {
        let front = items.drop_last();
        lemma_nonempty(front, item);
        assert(items =~= front.push(items.last()));
        assert(items.contains(item) <==> front.contains(item) || item == items.last()) by {
            if items.contains(item) {
                let k = choose|k: int| 0 <= k < items.len() && items[k] == item;
                if k < front.len() {
                    assert(front[k] == item);
                }
            }
            if front.contains(item) {
                let k = choose|k: int| 0 <= k < front.len() && front[k] == item;
                assert(items[k] == item);
            }
            if item == items.last() {
                assert(items[items.len() - 1] == item);
            }
        }
        let rest = nonempty(front);
        if items.last().len() > 0 {
            let all = rest.push(items.last());
            assert(all.contains(item) <==> rest.contains(item) || item == items.last()) by {
                if all.contains(item) {
                    let k = choose|k: int| 0 <= k < all.len() && all[k] == item;
                    if k < rest.len() {
                        assert(rest[k] == item);
                    }
                }
                if rest.contains(item) {
                    let k = choose|k: int| 0 <= k < rest.len() && rest[k] == item;
                    assert(all[k] == item);
                }
                if item == items.last() {
                    assert(all[all.len() - 1] == item);
                }
            }
        }
    }
}

/// What the library takes for the files of an overlay are the lines that git
/// lists in its work directory and that are not empty; without a work directory
/// there are none. Listing fails only where a request does.
pub proof fn listing_is_what_git_tells(w: World, c: Checkout)
    ensures
        ({
            let (after, files) = list_run(w, c);
            match files {
                Ok(files) => exists|list: Option<Text>| #[trigger]
                    listed(w, after, c.overlay_work(), list) && (forall|file: Text| #[trigger]
                        files.contains(file) <==> on_list(list, file)),
                Err(_) => did(w, after, seq![Step::Refused]),
            }
        }),
{
    lemma_listed(w, w, c);
}

// ─── Saving ──────────────────────────────────────────────────────────

/// Was the file copied from the checkout to the work directory, where the
/// checkout had it?
pub open spec fn file_saved(w0: World, w: World, c: Checkout, file: Text) -> bool {
    let here = path_join(c.checkout_root, file);
    let there = path_join(c.overlay_work(), file);
    ||| did(w0, w, seq![Step::No(Call::Exists(here))])
    ||| did(
        w0,
        w,
        seq![Step::Yes(Call::Exists(here))].push(
            Step::Well(Call::Copy { from: here, to: there }),
        ),
    )
}

/// Was everything in the work directory staged, did git then tell of these
/// changes, and were they committed where there are any?
pub open spec fn committed_as(
    w0: World,
    w: World,
    work: Text,
    message: Text,
    status: Text,
) -> bool {
    let steps = seq![Step::WorkWell(seq!["add"@, "-A"@], work)].push(
        Step::WorkTold(seq!["status"@, "--porcelain"@], work, status),
    );
    &&& did(w0, w, steps)
    &&& status.len() > 0 ==> did(
        w0,
        w,
        steps.push(Step::WorkWell(seq!["commit"@, "-m"@, message], work)),
    )
}

/// Was everything in the work directory staged, and committed where git then
/// told of any change?
pub open spec fn committed(w0: World, w: World, work: Text, message: Text) -> bool {
    exists|status: Text| #[trigger] committed_as(w0, w, work, message, status)
}

proof fn lemma_files_saved(w0: World, w: World, c: Checkout, files: Seq<Text>, i: nat, k: int)
    requires
        did(w0, w, Seq::empty()),
        i <= k < files.len(),
        save_files_run(w, c, files, i).1 is Ok,
    ensures
        file_saved(w0, save_files_run(w, c, files, i).0, c, files[k]),
    decreases files.len() - i,
{
    broadcast use lemma_kept_by_save_files;

    let (w1, saved) = save_file_run(w, c, files[i as int]);
    assert(did(w0, w1, Seq::empty()));
    if i < k {
        lemma_files_saved(w0, w1, c, files, i + 1, k);
    } else {
        assert(file_saved(w0, w1, c, files[k]));
    }
}

pub proof fn lemma_committed(w0: World, w: World, work: Text, message: Text)
    requires
        did(w0, w, Seq::empty()),
        commit_work_run(w, work, message).1 is Ok,
    ensures
        committed(w0, commit_work_run(w, work, message).0, work, message),
{
    broadcast use group_kept;

    let (w1, _) = w.work_git(seq!["add"@, "-A"@], work);
    let (w2, status) = w1.work_git(seq!["status"@, "--porcelain"@], work);
    let steps = seq![Step::WorkWell(seq!["add"@, "-A"@], work)].push(
        Step::WorkTold(seq!["status"@, "--porcelain"@], work, status->Ok_0),
    );
    assert(did(w0, w2, steps));
    assert(committed_as(
        w0,
        commit_work_run(w, work, message).0,
        work,
        message,
        status->Ok_0,
    ));
}

/// Was the overlay of the checkout saved between the two worlds: each of its
/// files that the checkout has copied to the work directory, and after that all
/// of it committed?
pub open spec fn overlay_saved(w0: World, w: World, c: Checkout, message: Text) -> bool {
    exists|list: Option<Text>, between: World| #[trigger]
        listed(w0, between, c.overlay_work(), list) && #[trigger] committed(
            between,
            w,
            c.overlay_work(),
            message,
        ) && forall|file: Text| #[trigger]
            on_list(list, file) ==> file_saved(w0, between, c, file)
}

/// Saving an overlay that has a work directory copies each of its files that the
/// checkout has to the work directory, and commits what has changed after that.
/// It fails only where a request does.
pub proof fn saving_keeps_every_file(w: World, c: Checkout, message: Text)
    requires
        (w.flag)(w.calls.len()),
    ensures
        ({
            let (after, saved) = save_run(w, c, message);
            match saved {
                Ok(_) => overlay_saved(w, after, c, message),
                Err(_) => did(w, after, seq![Step::Refused]),
            }
        }),
{
    lemma_save(w, w, c, message);
}

proof fn lemma_save_refused(w0: World, w: World, c: Checkout, files: Seq<Text>, i: nat)
    requires
        did(w0, w, Seq::empty()),
        save_files_run(w, c, files, i).1 is Err,
    ensures
        did(w0, save_files_run(w, c, files, i).0, seq![Step::Refused]),
    decreases files.len() - i,
{
    if i < files.len() {
        let (w1, saved) = save_file_run(w, c, files[i as int]);
        assert(did(w0, w1, Seq::empty()));
        if saved is Ok {
            lemma_save_refused(w0, w1, c, files, i + 1);
        }
    }
}

/// The same, counted from an earlier world.
pub proof fn lemma_save(w0: World, w: World, c: Checkout, message: Text)
    requires
        did(w0, w, Seq::empty()),
    ensures
        ({
            let (after, saved) = save_run(w, c, message);
            match saved {
                Ok(_) => (w.flag)(w.calls.len()) ==> overlay_saved(w0, after, c, message),
                Err(_) => did(w0, after, seq![Step::Refused]),
            }
        }),
{
    broadcast use group_kept;

    let (after, saved) = save_run(w, c, message);
    let work = c.overlay_work();
    let (w1, there) = w.path_exists(work);
    let (w2, files) = list_run(w1, c);
    if there {
        lemma_listed(w0, w1, c);
        assert(did(w0, w2, Seq::empty()));
        if files is Ok {
            let files = files->Ok_0;
            let (w3, copied) = save_files_run(w2, c, files, 0);
            if copied is Ok {
                let list = choose|list: Option<Text>| #[trigger]
                    listed(w0, w2, work, list) && (forall|file: Text| #[trigger]
                        files.contains(file) <==> on_list(list, file));
                assert(listed(w0, w3, work, list));
                assert forall|file: Text| #[trigger] on_list(list, file) implies file_saved(
                    w0,
                    w3,
                    c,
                    file,
                ) by {
                    assert(files.contains(file));
                    let k = choose|k: int| 0 <= k < files.len() && files[k] == file;
                    lemma_files_saved(w0, w2, c, files, 0, k);
                }
                if saved is Ok {
                    lemma_committed(w3, w3, work, message);
                    assert(overlay_saved(w0, after, c, message));
                }
            } else {
                lemma_save_refused(w0, w2, c, files, 0);
            }
        }
    }
}

/// What listing does, counted from an earlier world.
pub proof fn lemma_listed(w0: World, w: World, c: Checkout)
    requires
        did(w0, w, Seq::empty()),
    ensures
        ({
            let (after, files) = list_run(w, c);
            match files {
                Ok(files) => exists|list: Option<Text>| #[trigger]
                    listed(w0, after, c.overlay_work(), list) && (forall|file: Text| #[trigger]
                        files.contains(file) <==> on_list(list, file)),
                Err(_) => did(w0, after, seq![Step::Refused]),
            }
        }),
{
    broadcast use group_kept;

    let (after, files) = list_run(w, c);
    let work = c.overlay_work();
    let (w1, there) = w.path_exists(work);
    if files is Ok {
        if there {
            let output = w1.work_git(seq!["ls-files"@], work).1->Ok_0;
            assert(listed(w0, after, work, Some(output)));
            assert forall|file: Text| #[trigger]
                files->Ok_0.contains(file) <==> on_list(Some(output), file) by {
                lemma_nonempty(lines_of(output), file);
            }
        } else {
            assert(listed(w0, after, work, None));
            assert forall|file: Text| #[trigger]
                files->Ok_0.contains(file) <==> on_list(None, file) by {}
        }
    }
}

// ─── Excluding ───────────────────────────────────────────────────────

/// Asking git whether the host repo tracks a file.
pub open spec fn track_question(c: Checkout, file: Text) -> Call {
    git_call(seq!["ls-files"@, "--error-unmatch"@, file], c.checkout_root)
}

/// Was the section of the checkout in the exclude file made the given files: is
/// each file on the list among them, unless git knows it in the host repo, and
/// is nothing else?
pub open spec fn excluded_as(
    w0: World,
    w: World,
    c: Checkout,
    list: Option<Text>,
    existing: Text,
    files: Seq<Text>,
) -> bool {
    let path = exclude_path(c.main_root);
    &&& listed(w0, w, c.overlay_work(), list)
    &&& did(
        w0,
        w,
        seq![Step::Told(Call::Read(path), existing)].push(
            Step::Wrote(path, synced(existing, c.worktree_name, files)),
        ),
    ) || (existing.len() == 0 && did(
        w0,
        w,
        seq![Step::Ill(Call::Read(path))].push(
            Step::Wrote(path, synced(existing, c.worktree_name, files)),
        ),
    ))
    &&& forall|file: Text| #[trigger]
        on_list(list, file) ==> (files.contains(file) && did(
            w0,
            w,
            seq![Step::Ill(track_question(c, file))],
        )) || did(w0, w, seq![Step::Well(track_question(c, file))])
    &&& forall|file: Text| #[trigger] files.contains(file) ==> on_list(list, file)
}

/// Was the section of the checkout in the exclude file brought up to date?
pub open spec fn excludes_synced(w0: World, w: World, c: Checkout) -> bool {
    exists|list: Option<Text>, existing: Text, files: Seq<Text>| #[trigger]
        excluded_as(w0, w, c, list, existing, files)
}

proof fn lemma_untracked(
    w0: World,
    w: World,
    c: Checkout,
    files: Seq<Text>,
    i: nat,
    found: Seq<Text>,
)
    requires
        did(w0, w, Seq::empty()),
    ensures
        ({
            let (after, out) = untracked_run(w, c, files, i, found);
            &&& forall|f: Text| #[trigger] found.contains(f) ==> out.contains(f)
            &&& forall|f: Text| #[trigger]
                out.contains(f) ==> found.contains(f) || files.contains(f)
            &&& forall|k: int|
                i <= k < files.len() ==> (out.contains(#[trigger] files[k]) && did(
                    w0,
                    after,
                    seq![Step::Ill(track_question(c, files[k]))],
                )) || did(w0, after, seq![Step::Well(track_question(c, files[k]))])
        }),
    decreases files.len() - i,
{
    broadcast use lemma_kept_by_untracked;

    if i < files.len() {
        let file = files[i as int];
        let (w1, known) = tracked_run(w, c, file);
        assert(did(w0, w1, Seq::empty()));
        let more = if known {
            found
        } else {
            found.push(file)
        };
        lemma_untracked(w0, w1, c, files, i + 1, more);
        let (after, out) = untracked_run(w, c, files, i, found);
        assert((after, out) == untracked_run(w1, c, files, i + 1, more));
        if known {
            assert(did(w0, w1, seq![Step::Well(track_question(c, file))]));
            assert(did(w0, after, seq![Step::Well(track_question(c, file))]));
        } else {
            assert(did(w0, w1, seq![Step::Ill(track_question(c, file))]));
            assert(did(w0, after, seq![Step::Ill(track_question(c, file))]));
            assert(more[more.len() - 1] == file);
            assert(more.contains(file));
            assert(out.contains(file));
            assert forall|f: Text| #[trigger] found.contains(f) implies more.contains(f) by {
                let k = choose|k: int| 0 <= k < found.len() && found[k] == f;
                assert(more[k] == f);
            }
            assert forall|f: Text| #[trigger] more.contains(f) implies found.contains(f)
                || files.contains(f) by {
                let k = choose|k: int| 0 <= k < more.len() && more[k] == f;
                if k < found.len() {
                    assert(found[k] == f);
                }
            }
        }
    }
}

/// Bringing the exclude file up to date lists in the checkout's section just the
/// files of the overlay that the host repo does not track, and reads the rest of
/// the file before it writes it. It fails only where a request does.
pub proof fn syncing_excludes_the_overlay(w: World, c: Checkout)
    ensures
        ({
            let (after, synced) = sync_run(w, c);
            match synced {
                Ok(_) => excludes_synced(w, after, c),
                Err(_) => did(w, after, seq![Step::Refused]),
            }
        }),
{
    lemma_sync(w, w, c);
}

/// The same, counted from an earlier world.
pub proof fn lemma_sync(w0: World, w: World, c: Checkout)
    requires
        did(w0, w, Seq::empty()),
    ensures
        ({
            let (after, synced) = sync_run(w, c);
            match synced {
                Ok(_) => excludes_synced(w0, after, c),
                Err(_) => did(w0, after, seq![Step::Refused]),
            }
        }),
{
    broadcast use group_kept;

    let (after, done) = sync_run(w, c);
    let path = exclude_path(c.main_root);
    let work = c.overlay_work();
    let (w1, made) = ensure_parent_run(w, path);
    assert(did(w0, w1, Seq::empty()));
    if made is Ok {
        let (w2, read) = w1.read(path);
        let existing = match read {
            Ok(text) => text,
            Err(_) => Seq::empty(),
        };
        assert(did(w0, w2, Seq::empty()));
        lemma_listed(w0, w2, c);
        let (w3, files) = list_run(w2, c);
        if files is Ok {
            let files = files->Ok_0;
            assert(did(w0, w3, Seq::empty()));
            lemma_untracked(w0, w3, c, files, 0, Seq::empty());
            let (w4, out) = untracked_run(w3, c, files, 0, Seq::empty());
            if done is Ok {
                let list = choose|list: Option<Text>| #[trigger]
                    listed(w0, w3, work, list) && (forall|file: Text| #[trigger]
                        files.contains(file) <==> on_list(list, file));
                assert(listed(w0, after, work, list));
                assert forall|file: Text| #[trigger] on_list(list, file) implies (out.contains(file)
                    && did(w0, after, seq![Step::Ill(track_question(c, file))])) || did(
                    w0,
                    after,
                    seq![Step::Well(track_question(c, file))],
                ) by {
                    assert(files.contains(file));
                    let k = choose|k: int| 0 <= k < files.len() && files[k] == file;
                    assert(files[k] == file);
                }
                assert forall|file: Text| #[trigger] out.contains(file) implies on_list(
                    list,
                    file,
                ) by {
                    assert(files.contains(file));
                }
                assert(excluded_as(w0, after, c, list, existing, out));
            }
        }
    }
}

// ─── Applying ────────────────────────────────────────────────────────

/// Was the file copied from the work directory over the checkout, and hidden
/// from the host repo where that tracks it?
pub open spec fn file_applied(w0: World, w: World, c: Checkout, file: Text) -> bool {
    let copied = seq![
        Step::Well(
            Call::Copy {
                from: path_join(c.overlay_work(), file),
                to: path_join(c.checkout_root, file),
            },
        ),
    ];
    ||| did(w0, w, copied.push(Step::Ill(track_question(c, file))))
    ||| did(
        w0,
        w,
        copied.push(Step::Well(track_question(c, file))).push(
            Step::Just(
                git_call(seq!["update-index"@, "--skip-worktree"@, file], c.checkout_root),
            ),
        ),
    )
}

/// Was the overlay laid over the checkout: every file that the work directory
/// lists, and after that the exclude file?
pub open spec fn overlay_applied(w0: World, w: World, c: Checkout) -> bool {
    exists|list: Option<Text>, between: World| #[trigger]
        listed(w0, between, c.overlay_work(), list) && #[trigger] excludes_synced(between, w, c)
            && forall|file: Text| #[trigger]
            on_list(list, file) ==> file_applied(w0, between, c, file)
}

proof fn lemma_files_applied(w0: World, w: World, c: Checkout, files: Seq<Text>, i: nat, k: int)
    requires
        did(w0, w, Seq::empty()),
        i <= k < files.len(),
        apply_files_run(w, c, files, i).1 is Ok,
    ensures
        file_applied(w0, apply_files_run(w, c, files, i).0, c, files[k]),
    decreases files.len() - i,
{
    broadcast use lemma_kept_by_apply_files;

    let (w1, applied) = apply_file_run(w, c, files[i as int]);
    assert(did(w0, w1, Seq::empty()));
    if i < k {
        lemma_files_applied(w0, w1, c, files, i + 1, k);
    } else {
        assert(file_applied(w0, w1, c, files[k]));
    }
}

proof fn lemma_apply_refused(w0: World, w: World, c: Checkout, files: Seq<Text>, i: nat)
    requires
        did(w0, w, Seq::empty()),
        apply_files_run(w, c, files, i).1 is Err,
    ensures
        did(w0, apply_files_run(w, c, files, i).0, seq![Step::Refused]),
    decreases files.len() - i,
{
    if i < files.len() {
        let (w1, applied) = apply_file_run(w, c, files[i as int]);
        assert(did(w0, w1, Seq::empty()));
        if applied is Ok {
            lemma_apply_refused(w0, w1, c, files, i + 1);
        }
    }
}

/// Applying an overlay copies every file that its work directory lists to the
/// same path in the checkout, hides those that the host repo tracks, and then
/// brings the exclude file up to date. It fails only where a request does.
pub proof fn applying_lays_every_file(w: World, c: Checkout)
    ensures
        ({
            let (after, applied) = apply_run(w, c);
            match applied {
                Ok(_) => overlay_applied(w, after, c),
                Err(_) => did(w, after, seq![Step::Refused]),
            }
        }),
{
    lemma_apply(w, w, c);
}

/// The same, counted from an earlier world.
pub proof fn lemma_apply(w0: World, w: World, c: Checkout)
    requires
        did(w0, w, Seq::empty()),
    ensures
        ({
            let (after, applied) = apply_run(w, c);
            match applied {
                Ok(_) => overlay_applied(w0, after, c),
                Err(_) => did(w0, after, seq![Step::Refused]),
            }
        }),
{
    broadcast use group_kept;

    let (after, done) = apply_run(w, c);
    let work = c.overlay_work();
    lemma_listed(w0, w, c);
    let (w1, files) = list_run(w, c);
    if files is Ok {
        let files = files->Ok_0;
        assert(did(w0, w1, Seq::empty()));
        let (w2, applied) = apply_files_run(w1, c, files, 0);
        if applied is Ok {
            let list = choose|list: Option<Text>| #[trigger]
                listed(w0, w1, work, list) && (forall|file: Text| #[trigger]
                    files.contains(file) <==> on_list(list, file));
            assert(listed(w0, w2, work, list));
            assert forall|file: Text| #[trigger] on_list(list, file) implies file_applied(
                w0,
                w2,
                c,
                file,
            ) by {
                assert(files.contains(file));
                let k = choose|k: int| 0 <= k < files.len() && files[k] == file;
                lemma_files_applied(w0, w1, c, files, 0, k);
            }
            lemma_sync(w2, w2, c);
            lemma_sync(w0, w2, c);
        } else {
            lemma_apply_refused(w0, w1, c, files, 0);
        }
    }
}

// ─── Unapplying ──────────────────────────────────────────────────────

/// Was the file taken out of the checkout: the host repo's version brought back
/// where the host repo tracks it, or the file removed where it is there?
pub open spec fn file_withdrawn(w0: World, w: World, c: Checkout, file: Text) -> bool {
    let path = path_join(c.checkout_root, file);
    let host = seq![Step::Well(track_question(c, file))];
    let alone = seq![Step::Ill(track_question(c, file))];
    ||| did(
        w0,
        w,
        host.push(
            Step::Just(
                git_call(seq!["update-index"@, "--no-skip-worktree"@, file], c.checkout_root),
            ),
        ).push(Step::Just(git_call(seq!["checkout"@, "--"@, file], c.checkout_root))),
    )
    ||| did(
        w0,
        w,
        alone.push(Step::Yes(Call::Exists(path))).push(Step::Just(Call::RemoveFile(path))),
    )
    ||| did(w0, w, alone.push(Step::No(Call::Exists(path))))
}

/// Was every file that the work directory lists taken out of the checkout?
pub open spec fn overlay_withdrawn(w0: World, w: World, c: Checkout) -> bool {
    exists|list: Option<Text>| #[trigger]
        listed(w0, w, c.overlay_work(), list) && forall|file: Text| #[trigger]
            on_list(list, file) ==> file_withdrawn(w0, w, c, file)
}

pub proof fn lemma_withdrawn(w0: World, w: World, c: Checkout, file: Text)
    requires
        did(w0, w, Seq::empty()),
    ensures
        file_withdrawn(w0, withdraw_run(w, c, file), c, file),
{
    broadcast use lemma_kept_by_remove_empty;

}

proof fn lemma_files_withdrawn(w0: World, w: World, c: Checkout, files: Seq<Text>, i: nat, k: int)
    requires
        did(w0, w, Seq::empty()),
        i <= k < files.len(),
    ensures
        file_withdrawn(w0, withdraw_files_run(w, c, files, i), c, files[k]),
    decreases files.len() - i,
{
    broadcast use {lemma_kept_by_withdraw_files, lemma_kept_by_withdraw};

    let w1 = withdraw_run(w, c, files[i as int]);
    assert(did(w0, w1, Seq::empty()));
    assert(withdraw_files_run(w, c, files, i) == withdraw_files_run(w1, c, files, i + 1));
    if i < k {
        lemma_files_withdrawn(w0, w1, c, files, i + 1, k);
    } else {
        lemma_withdrawn(w0, w, c, files[k]);
        assert(file_withdrawn(w0, w1, c, files[k]));
    }
}

/// Unapplying an overlay takes every file that its work directory lists out of
/// the checkout, and fails only where a request does.
pub proof fn unapplying_takes_every_file(w: World, c: Checkout)
    ensures
        ({
            let (after, unapplied) = unapply_run(w, c);
            match unapplied {
                Ok(_) => overlay_withdrawn(w, after, c),
                Err(_) => did(w, after, seq![Step::Refused]),
            }
        }),
{
    lemma_unapply(w, w, c);
}

/// The same, counted from an earlier world.
pub proof fn lemma_unapply(w0: World, w: World, c: Checkout)
    requires
        did(w0, w, Seq::empty()),
    ensures
        ({
            let (after, unapplied) = unapply_run(w, c);
            match unapplied {
                Ok(_) => overlay_withdrawn(w0, after, c),
                Err(_) => did(w0, after, seq![Step::Refused]),
            }
        }),
{
    broadcast use group_kept;

    let (after, done) = unapply_run(w, c);
    let work = c.overlay_work();
    lemma_listed(w0, w, c);
    let (w1, files) = list_run(w, c);
    if files is Ok {
        let files = files->Ok_0;
        assert(did(w0, w1, Seq::empty()));
        let list = choose|list: Option<Text>| #[trigger]
            listed(w0, w1, work, list) && (forall|file: Text| #[trigger]
                files.contains(file) <==> on_list(list, file));
        assert(listed(w0, after, work, list));
        assert forall|file: Text| #[trigger] on_list(list, file) implies file_withdrawn(
            w0,
            after,
            c,
            file,
        ) by {
            assert(files.contains(file));
            let k = choose|k: int| 0 <= k < files.len() && files[k] == file;
            lemma_files_withdrawn(w0, w1, c, files, 0, k);
        }
    }
}

/// Was the file copied back to the work directory, where the checkout has it and
/// the host repo does not track it?
pub open spec fn survivor_saved(w0: World, w: World, c: Checkout, file: Text) -> bool {
    let here = path_join(c.checkout_root, file);
    let there = path_join(c.overlay_work(), file);
    let found = seq![Step::Yes(Call::Exists(here))];
    ||| did(w0, w, seq![Step::No(Call::Exists(here))])
    ||| did(w0, w, found.push(Step::Well(track_question(c, file))))
    ||| did(
        w0,
        w,
        found.push(Step::Ill(track_question(c, file))).push(
            Step::Well(Call::Copy { from: here, to: there }),
        ),
    )
}

proof fn lemma_survivors(w0: World, w: World, c: Checkout, files: Seq<Text>, i: nat, k: int)
    requires
        did(w0, w, Seq::empty()),
        i <= k < files.len(),
        survivors_run(w, c, files, i).1 is Ok,
    ensures
        survivor_saved(w0, survivors_run(w, c, files, i).0, c, files[k]),
    decreases files.len() - i,
{
    broadcast use lemma_kept_by_survivors;

    let (w1, saved) = survivor_run(w, c, files[i as int]);
    assert(did(w0, w1, Seq::empty()));
    if i < k {
        lemma_survivors(w0, w1, c, files, i + 1, k);
    } else {
        assert(survivor_saved(w0, w1, c, files[k]));
    }
}

proof fn lemma_survivors_refused(w0: World, w: World, c: Checkout, files: Seq<Text>, i: nat)
    requires
        did(w0, w, Seq::empty()),
        survivors_run(w, c, files, i).1 is Err,
    ensures
        did(w0, survivors_run(w, c, files, i).0, seq![Step::Refused]),
    decreases files.len() - i,
{
    if i < files.len() {
        let (w1, saved) = survivor_run(w, c, files[i as int]);
        assert(did(w0, w1, Seq::empty()));
        if saved is Ok {
            lemma_survivors_refused(w0, w1, c, files, i + 1);
        }
    }
}

/// Was every file that the work directory lists, that the checkout has and that
/// the host repo does not track copied back?
pub open spec fn survivors_saved(w0: World, w: World, c: Checkout) -> bool {
    exists|list: Option<Text>| #[trigger]
        listed(w0, w, c.overlay_work(), list) && forall|file: Text| #[trigger]
            on_list(list, file) ==> survivor_saved(w0, w, c, file)
}

/// Files of the overlay alone that are still in the checkout are copied back to
/// the work directory. That fails only where a request does.
pub proof fn survivors_are_saved(w: World, c: Checkout)
    ensures
        ({
            let (after, saved) = sync_back_run(w, c);
            match saved {
                Ok(_) => survivors_saved(w, after, c),
                Err(_) => did(w, after, seq![Step::Refused]),
            }
        }),
{
    lemma_sync_back(w, w, c);
}

/// The same, counted from an earlier world.
pub proof fn lemma_sync_back(w0: World, w: World, c: Checkout)
    requires
        did(w0, w, Seq::empty()),
    ensures
        ({
            let (after, saved) = sync_back_run(w, c);
            match saved {
                Ok(_) => survivors_saved(w0, after, c),
                Err(_) => did(w0, after, seq![Step::Refused]),
            }
        }),
{
    broadcast use group_kept;

    let (after, done) = sync_back_run(w, c);
    let work = c.overlay_work();
    lemma_listed(w0, w, c);
    let (w1, files) = list_run(w, c);
    if files is Ok {
        let files = files->Ok_0;
        assert(did(w0, w1, Seq::empty()));
        if done is Ok {
            let list = choose|list: Option<Text>| #[trigger]
                listed(w0, w1, work, list) && (forall|file: Text| #[trigger]
                    files.contains(file) <==> on_list(list, file));
            assert(listed(w0, after, work, list));
            assert forall|file: Text| #[trigger] on_list(list, file) implies survivor_saved(
                w0,
                after,
                c,
                file,
            ) by {
                assert(files.contains(file));
                let k = choose|k: int| 0 <= k < files.len() && files[k] == file;
                lemma_survivors(w0, w1, c, files, 0, k);
            }
        } else {
            lemma_survivors_refused(w0, w1, c, files, 0);
        }
    }
}

// ─── Adding and removing a file ──────────────────────────────────────

/// Adding a file of the checkout copies it to the work directory, stages it
/// there, hides it from the host repo where that tracks it, and brings the
/// exclude file up to date. It fails only where the file is not there or a
/// request fails.
pub proof fn adding_puts_the_file_into_the_overlay(w: World, c: Checkout, path: Text)
    ensures
        ({
            let (after, added) = add_file_run(w, c, path);
            let here = path_join(c.checkout_root, path);
            let there = path_join(c.overlay_work(), path);
            let staged = seq![Step::Yes(Call::Exists(here))].push(
                Step::Well(Call::Copy { from: here, to: there }),
            ).push(Step::WorkWell(seq!["add"@, path], c.overlay_work()));
            match added {
                Ok(_) => {
                    &&& did(w, after, staged.push(Step::Ill(track_question(c, path)))) || did(
                        w,
                        after,
                        staged.push(Step::Well(track_question(c, path))).push(
                            Step::Just(
                                git_call(
                                    seq!["update-index"@, "--skip-worktree"@, path],
                                    c.checkout_root,
                                ),
                            ),
                        ),
                    )
                    &&& exists|between: World| #[trigger]
                        did(w, between, staged) && excludes_synced(between, after, c)
                },
                Err(_) => did(w, after, seq![Step::Refused]) || did(
                    w,
                    after,
                    seq![Step::No(Call::Exists(here))],
                ),
            }
        }),
{
    broadcast use group_kept;

    let (after, added) = add_file_run(w, c, path);
    let here = path_join(c.checkout_root, path);
    let there = path_join(c.overlay_work(), path);
    let (w1, found) = w.path_exists(here);
    let (w2, placed) = crate::overlay::place_in_context_run(
        w1,
        here,
        there,
        "failed to copy "@ + path + " to work/"@,
    );
    let copied = seq![Step::Yes(Call::Exists(here))].push(
        Step::Well(Call::Copy { from: here, to: there }),
    );
    if found {
        if placed is Ok {
            assert(did(w, w2, copied));
            let (w3, staged) = w2.work_git(seq!["add"@, path], c.overlay_work());
            assert(did(w, w2, Seq::empty()));
            if staged is Ok {
                let done = copied.push(Step::WorkWell(seq!["add"@, path], c.overlay_work()));
                assert(did(w, w3, done));
                assert(did(w, w3, Seq::empty()));
                let (w4, known) = tracked_run(w3, c, path);
                let w5 = if known {
                    crate::overlay::hide_run(w4, c, path)
                } else {
                    w4
                };
                assert(did(w, w5, done));
                assert(did(w, w5, Seq::empty()));
                lemma_sync(w, w5, c);
                lemma_sync(w5, w5, c);
                if !known {
                    assert(did(w, w4, done.push(Step::Ill(track_question(c, path)))));
                } else {
                    assert(did(w, w4, done.push(Step::Well(track_question(c, path)))));
                    assert(did(
                        w,
                        w5,
                        done.push(Step::Well(track_question(c, path))).push(
                            Step::Just(
                                git_call(
                                    seq!["update-index"@, "--skip-worktree"@, path],
                                    c.checkout_root,
                                ),
                            ),
                        ),
                    ));
                }
                assert(after == sync_run(w5, c).0);
            }
        }
    }
}

/// Removing a file from the overlay removes it from the work directory and takes
/// it out of the checkout, and then brings the exclude file up to date. It fails
/// only where a request does.
pub proof fn removing_takes_the_file_out_of_the_overlay(w: World, c: Checkout, path: Text)
    ensures
        ({
            let (after, removed) = remove_file_run(w, c, path);
            let gone = seq![Step::WorkWell(seq!["rm"@, "-f"@, path], c.overlay_work())];
            match removed {
                Ok(_) => exists|between: World, last: World| #[trigger]
                    did(w, between, gone) && #[trigger] file_withdrawn(between, last, c, path)
                        && excludes_synced(last, after, c),
                Err(_) => did(w, after, seq![Step::Refused]),
            }
        }),
{
    broadcast use group_kept;

    let (after, removed) = remove_file_run(w, c, path);
    let (w1, gone) = w.work_git(seq!["rm"@, "-f"@, path], c.overlay_work());
    if gone is Ok {
        assert(did(w, w1, seq![Step::WorkWell(seq!["rm"@, "-f"@, path], c.overlay_work())]));
        let w2 = withdraw_run(w1, c, path);
        lemma_withdrawn(w1, w1, c, path);
        assert(did(w, w1, Seq::empty()));
        assert(did(w, w2, Seq::empty()));
        lemma_sync(w2, w2, c);
        lemma_sync(w, w2, c);
        assert(file_withdrawn(w1, w2, c, path));
    }
}

/// Cleaning the exclude file, where there is one, writes it back without any
/// section of a checkout. It fails only where a request does.
pub proof fn cleaning_rewrites_the_excludes(w: World, root: Text)
    ensures
        ({
            let (after, done) = clean_run(w, root);
            let path = exclude_path(root);
            match done {
                Ok(_) => did(w, after, seq![Step::No(Call::Exists(path))]) || exists|
                    existing: Text,
                |
                    #[trigger] did(
                        w,
                        after,
                        seq![Step::Told(Call::Read(path), existing)].push(
                            Step::Wrote(path, cleaned(existing)),
                        ),
                    ),
                Err(_) => did(w, after, seq![Step::Refused]),
            }
        }),
{
    let path = exclude_path(root);
    let (w1, there) = w.path_exists(path);
    let (w2, existing) = w1.read(path);
    if there && existing is Ok && clean_run(w, root).1 is Ok {
        assert(did(
            w,
            clean_run(w, root).0,
            seq![Step::Told(Call::Read(path), existing->Ok_0)].push(
                Step::Wrote(path, cleaned(existing->Ok_0)),
            ),
        ));
    }
}

// ─── Branches ────────────────────────────────────────────────────────

/// Was the branch created on an empty tree: the tree that git made of nothing, a
/// commit of that tree, and the branch on that commit?
pub open spec fn branch_created(
    w0: World,
    w: World,
    root: Text,
    branch: Text,
    tree: Text,
    commit: Text,
) -> bool {
    did(
        w0,
        w,
        seq![
            Step::BareTold(
                seq!["hash-object"@, "-t"@, "tree"@, "/dev/null"@],
                repo_path(root),
                root,
                tree,
            ),
        ].push(
            Step::BareTold(
                seq!["commit-tree"@, tree, "-m"@, "init "@ + branch],
                repo_path(root),
                root,
                commit,
            ),
        ).push(
            Step::BareWell(
                seq!["update-ref"@, "refs/heads/"@ + branch, commit],
                repo_path(root),
                root,
            ),
        ),
    )
}

/// A new overlay branch stands on a commit of the empty tree. Creating it fails
/// only where a request does.
pub proof fn new_branch_is_empty(w: World, root: Text, branch: Text)
    ensures
        ({
            let (after, done) = create_branch_run(w, root, branch);
            match done {
                Ok(_) => exists|tree: Text, commit: Text| #[trigger]
                    branch_created(w, after, root, branch, tree, commit),
                Err(_) => did(w, after, seq![Step::Refused]),
            }
        }),
{
    lemma_branch_created(w, w, root, branch);
}

/// The same, counted from an earlier world.
pub proof fn lemma_branch_created(w0: World, w: World, root: Text, branch: Text)
    requires
        did(w0, w, Seq::empty()),
    ensures
        ({
            let (after, done) = create_branch_run(w, root, branch);
            match done {
                Ok(_) => exists|tree: Text, commit: Text| #[trigger]
                    branch_created(w0, after, root, branch, tree, commit),
                Err(_) => did(w0, after, seq![Step::Refused]),
            }
        }),
{
    let (w1, tree) = w.subcontext_git(seq!["hash-object"@, "-t"@, "tree"@, "/dev/null"@], root);
    if tree is Ok {
        let (w2, commit) = w1.subcontext_git(
            seq!["commit-tree"@, tree->Ok_0, "-m"@, "init "@ + branch],
            root,
        );
        if commit is Ok && create_branch_run(w, root, branch).1 is Ok {
            assert(branch_created(
                w0,
                create_branch_run(w, root, branch).0,
                root,
                branch,
                tree->Ok_0,
                commit->Ok_0,
            ));
        }
    }
}

/// A forked overlay branch starts at its source: git is told to create it from
/// there.
pub proof fn forked_branch_starts_at_its_source(w: World, root: Text, branch: Text, source: Text)
    ensures
        ({
            let (after, done) = fork_branch_run(w, root, branch, source);
            &&& done is Ok ==> did(
                w,
                after,
                seq![Step::BareWell(seq!["branch"@, branch, source], repo_path(root), root)],
            )
            &&& done is Err ==> did(w, after, seq![Step::Refused])
        }),
{
}

/// A branch exists where git finds its ref in the subcontext repo.
pub proof fn branch_exists_where_git_finds_it(w: World, root: Text, branch: Text)
    ensures
        ({
            let (after, found) = branch_exists_run(w, root, branch);
            let question = bare_call(
                seq!["show-ref"@, "--verify"@, "refs/heads/"@ + branch],
                repo_path(root),
                root,
            );
            did(
                w,
                after,
                seq![
                    if found {
                        Step::Well(question)
                    } else {
                        Step::Ill(question)
                    },
                ],
            )
        }),
{
}

/// The branch of a work directory is the one that git tells of its HEAD, where
/// there is a work directory and git tells of any.
pub proof fn work_branch_is_what_git_tells(w: World, work: Text)
    ensures
        ({
            let (after, branch) = branch_at_run(w, work);
            match branch {
                Some(name) => name.len() > 0 && did(
                    w,
                    after,
                    seq![Step::Yes(Call::Exists(work))].push(
                        Step::WorkTold(seq!["symbolic-ref"@, "--short"@, "HEAD"@], work, name),
                    ),
                ),
                None => did(w, after, seq![Step::No(Call::Exists(work))]) || did(
                    w,
                    after,
                    seq![Step::Refused],
                ) || did(
                    w,
                    after,
                    seq![
                        Step::WorkTold(
                            seq!["symbolic-ref"@, "--short"@, "HEAD"@],
                            work,
                            Seq::empty(),
                        ),
                    ],
                ),
            }
        }),
{
    broadcast use group_kept;

    let (w1, there) = w.path_exists(work);
    let (w2, branch) = w1.work_git(seq!["symbolic-ref"@, "--short"@, "HEAD"@], work);
    if there && branch is Ok && branch->Ok_0.len() == 0 {
        assert(branch->Ok_0 =~= Seq::<char>::empty());
    }
}

/// Switching checks the branch out in the work directory of the checkout.
pub proof fn switching_checks_the_branch_out(w: World, c: Checkout, branch: Text)
    ensures
        ({
            let (after, done) = switch_run(w, c, branch);
            &&& done is Ok ==> did(
                w,
                after,
                seq![Step::WorkWell(seq!["checkout"@, branch], c.overlay_work())],
            )
            &&& done is Err ==> did(w, after, seq![Step::Refused])
        }),
{
    broadcast use group_kept;

}

/// Creating the work directory of a checkout makes it a worktree of the
/// subcontext repo on the branch, after the directory that it lies in.
pub proof fn new_work_directory_is_on_its_branch(w: World, c: Checkout, branch: Text)
    ensures
        ({
            let (after, done) = create_work_run(w, c, branch);
            let added = Step::BareWell(
                seq!["worktree"@, "add"@, c.overlay_work(), branch],
                repo_path(c.main_root),
                c.main_root,
            );
            &&& done is Ok ==> match parent_of(c.overlay_work()) {
                Some(up) => did(w, after, seq![Step::Well(Call::CreateDirAll(up))].push(added)),
                None => did(w, after, seq![added]),
            }
            &&& done is Err ==> did(w, after, seq![Step::Refused])
        }),
{
}

} // verus!
