//! What the commands on files do with what they are given.

use vstd::prelude::*;

use crate::cli::{
    add_each_run, add_files_within, add_from_within, add_path_within, add_submodule_run,
    canonical_run, child_lines_run, local_uuid_run, on_checkout_run, on_commit_run, parent_run,
    remove_files_run, remove_from_run, remove_submodule_run, resolve_file_run, resolve_new_run,
    save_changes_run, titled_run, titles_run, uuid_run,
};
use crate::environment::EnvView;
use crate::failure::Outcome;
use crate::git::{config_path, find_checkout_run, find_main_run, Checkout};
use crate::global::{exists_run, get_parent_run, kind_run, root_of};
use crate::hook::{checkout_run, commit_run, old_hook_run, told};
use crate::laws::global::{holds, value_is_on_its_line};
use crate::laws::overlay::{file_withdrawn, group_kept, lemma_save, lemma_withdrawn, overlay_saved};
use crate::lineage::{children_run, kind_or_unknown};
use crate::overlay::{
    add_file_run, place_in_context_run, remove_file_run, save_run, sync_run, tracked_run,
    withdraw_run,
};
use crate::paths::{is_rooted, parts, path_join, relative_to, walked};
use crate::text::{joined, Text};
use crate::trace::{did, group_did, lemma_did_before, Step};
use crate::tree::{below_each_within, below_within, files_of, name_at, ItemView};
use crate::world::{Call, World};

verus! {

broadcast use group_did;

// ─── Walking a directory ─────────────────────────────────────────────

/// Is everything below the directory among what was found, but what is named
/// `.git`: each file, and what is below each directory, under its path from
/// where the walk began?
pub open spec fn dir_walked(
    w0: World,
    w: World,
    dir: Text,
    rel: Text,
    found: Seq<ItemView>,
    depth: nat,
) -> bool
    decreases depth,
{
    exists|paths: Seq<Text>| #[trigger]
        did(w0, w, seq![Step::Items(Call::ReadDir(dir), paths)]) && forall|k: int|
            0 <= k < paths.len() ==> {
                let path = path_join(rel, name_at(#[trigger] paths[k]));
                ||| name_at(paths[k]) == ".git"@
                ||| did(w0, w, seq![Step::No(Call::IsDir(paths[k]))]) && found.contains(
                    ItemView { path, is_dir: false },
                )
                ||| did(w0, w, seq![Step::Yes(Call::IsDir(paths[k]))]) && depth > 0 && dir_walked(
                    w0,
                    w,
                    paths[k],
                    path,
                    found,
                    (depth - 1) as nat,
                )
            }
}

proof fn lemma_kept_by_below(
    w0: World,
    w: World,
    dir: Text,
    rel: Text,
    found: Seq<ItemView>,
    depth: nat,
    steps: Seq<Step>,
)
    requires
        did(w0, w, steps),
    ensures
        below_within(w, dir, rel, found, depth) matches Some(end) ==> did(w0, end.0, steps)
            && found.is_prefix_of(end.1),
    decreases depth, 1int, 0int,
{
    let (w1, paths) = w.read_dir(dir);
    assert(did(w0, w1, steps));
    if paths is Ok {
        lemma_kept_by_below_each(w0, w1, paths->Ok_0, 0, rel, found, depth, steps);
    }
}

proof fn lemma_kept_by_below_each(
    w0: World,
    w: World,
    paths: Seq<Text>,
    i: nat,
    rel: Text,
    found: Seq<ItemView>,
    depth: nat,
    steps: Seq<Step>,
)
    requires
        did(w0, w, steps),
    ensures
        below_each_within(w, paths, i, rel, found, depth) matches Some(end) ==> did(
            w0,
            end.0,
            steps,
        ) && found.is_prefix_of(end.1),
    decreases depth, 0int, paths.len() - i,
{
    if i < paths.len() {
        let at = paths[i as int];
        if name_at(at) == ".git"@ {
            lemma_kept_by_below_each(w0, w, paths, i + 1, rel, found, depth, steps);
        } else {
            let path = path_join(rel, name_at(at));
            let (w1, is_dir) = w.is_dir(at);
            assert(did(w0, w1, steps));
            let now = found.push(ItemView { path, is_dir });
            assert(found.is_prefix_of(now));
            if !is_dir {
                lemma_kept_by_below_each(w0, w1, paths, i + 1, rel, now, depth, steps);
            } else if depth > 0 {
                let below = (depth - 1) as nat;
                lemma_kept_by_below(w0, w1, at, path, now, below, steps);
                if let Some((w2, all, Ok(_))) = below_within(w1, at, path, now, below) {
                    lemma_kept_by_below_each(w0, w2, paths, i + 1, rel, all, depth, steps);
                }
            }
        }
    }
}

proof fn lemma_still_walked(
    w0: World,
    w: World,
    after: World,
    dir: Text,
    rel: Text,
    found: Seq<ItemView>,
    more: Seq<ItemView>,
    depth: nat,
)
    requires
        dir_walked(w0, w, dir, rel, found, depth),
        did(w, after, Seq::empty()),
        found.is_prefix_of(more),
    ensures
        dir_walked(w0, after, dir, rel, more, depth),
    decreases depth,
{
    let paths = choose|paths: Seq<Text>| #[trigger]
        did(w0, w, seq![Step::Items(Call::ReadDir(dir), paths)]) && forall|k: int|
            0 <= k < paths.len() ==> {
                let path = path_join(rel, name_at(#[trigger] paths[k]));
                ||| name_at(paths[k]) == ".git"@
                ||| did(w0, w, seq![Step::No(Call::IsDir(paths[k]))]) && found.contains(
                    ItemView { path, is_dir: false },
                )
                ||| did(w0, w, seq![Step::Yes(Call::IsDir(paths[k]))]) && depth > 0 && dir_walked(
                    w0,
                    w,
                    paths[k],
                    path,
                    found,
                    (depth - 1) as nat,
                )
            };
    lemma_did_before(w0, w, after, seq![Step::Items(Call::ReadDir(dir), paths)]);
    assert forall|k: int| 0 <= k < paths.len() implies {
        let path = path_join(rel, name_at(#[trigger] paths[k]));
        ||| name_at(paths[k]) == ".git"@
        ||| did(w0, after, seq![Step::No(Call::IsDir(paths[k]))]) && more.contains(
            ItemView { path, is_dir: false },
        )
        ||| did(w0, after, seq![Step::Yes(Call::IsDir(paths[k]))]) && depth > 0 && dir_walked(
            w0,
            after,
            paths[k],
            path,
            more,
            (depth - 1) as nat,
        )
    } by {
        let path = path_join(rel, name_at(paths[k]));
        let no = seq![Step::No(Call::IsDir(paths[k]))];
        let yes = seq![Step::Yes(Call::IsDir(paths[k]))];
        if name_at(paths[k]) == ".git"@ {
        } else if did(w0, w, no) && found.contains(ItemView { path, is_dir: false }) {
            lemma_did_before(w0, w, after, no);
            let item = ItemView { path, is_dir: false };
            let j = choose|j: int| 0 <= j < found.len() && found[j] == item;
            assert(more[j] == item);
        } else {
            lemma_did_before(w0, w, after, yes);
            lemma_still_walked(
                w0,
                w,
                after,
                paths[k],
                path,
                found,
                more,
                (depth - 1) as nat,
            );
        }
    }
}

proof fn lemma_walked(
    w0: World,
    w: World,
    dir: Text,
    rel: Text,
    found: Seq<ItemView>,
    depth: nat,
)
    requires
        did(w0, w, Seq::empty()),
    ensures
        below_within(w, dir, rel, found, depth) matches Some(end) ==> end.2 is Ok ==> dir_walked(
            w0,
            end.0,
            dir,
            rel,
            end.1,
            depth,
        ),
    decreases depth, 1int, 0int,
{
    let (w1, paths) = w.read_dir(dir);
    assert(did(w0, w1, Seq::empty()));
    if paths is Ok {
        let paths = paths->Ok_0;
        let read = seq![Step::Items(Call::ReadDir(dir), paths)];
        assert(did(w0, w1, read));
        lemma_kept_by_below_each(w0, w1, paths, 0, rel, found, depth, read);
        lemma_each_walked(w0, w1, paths, 0, rel, found, depth);
    }
}

proof fn lemma_each_walked(
    w0: World,
    w: World,
    paths: Seq<Text>,
    i: nat,
    rel: Text,
    found: Seq<ItemView>,
    depth: nat,
)
    requires
        did(w0, w, Seq::empty()),
    ensures
        below_each_within(w, paths, i, rel, found, depth) matches Some(end) ==> end.2 is Ok
            ==> forall|k: int|
            i <= k < paths.len() ==> {
                let path = path_join(rel, name_at(#[trigger] paths[k]));
                ||| name_at(paths[k]) == ".git"@
                ||| did(w0, end.0, seq![Step::No(Call::IsDir(paths[k]))]) && end.1.contains(
                    ItemView { path, is_dir: false },
                )
                ||| did(w0, end.0, seq![Step::Yes(Call::IsDir(paths[k]))]) && depth > 0
                    && dir_walked(w0, end.0, paths[k], path, end.1, (depth - 1) as nat)
            },
    decreases depth, 0int, paths.len() - i,
{
    let end = below_each_within(w, paths, i, rel, found, depth);
    if i < paths.len() && end is Some && (end->0).2 is Ok {
        let at = paths[i as int];
        let (after, all, _) = end->0;
        if name_at(at) == ".git"@ {
            lemma_each_walked(w0, w, paths, i + 1, rel, found, depth);
        } else {
            let path = path_join(rel, name_at(at));
            let (w1, is_dir) = w.is_dir(at);
            assert(did(w0, w1, Seq::empty()));
            let item = ItemView { path, is_dir };
            let now = found.push(item);
            if !is_dir {
                let no = seq![Step::No(Call::IsDir(at))];
                assert(did(w0, w1, no));
                lemma_kept_by_below_each(w0, w1, paths, i + 1, rel, now, depth, no);
                lemma_each_walked(w0, w1, paths, i + 1, rel, now, depth);
                assert(all[found.len() as int] == now[found.len() as int]);
                assert(all.contains(ItemView { path, is_dir: false }));
            } else {
                let yes = seq![Step::Yes(Call::IsDir(at))];
                assert(did(w0, w1, yes));
                let below = (depth - 1) as nat;
                lemma_walked(w0, w1, at, path, now, below);
                lemma_kept_by_below(w0, w1, at, path, now, below, yes);
                lemma_kept_by_below(w0, w1, at, path, now, below, Seq::empty());
                let (w2, inner, _) = below_within(w1, at, path, now, below)->0;
                lemma_each_walked(w0, w2, paths, i + 1, rel, inner, depth);
                lemma_kept_by_below_each(w0, w2, paths, i + 1, rel, inner, depth, yes);
                lemma_kept_by_below_each(w2, w2, paths, i + 1, rel, inner, depth, Seq::empty());
                lemma_still_walked(w0, w2, after, at, path, inner, all, below);
            }
        }
    }
}

/// A walk that ends well finds everything below the directory, but what is named
/// `.git`.
pub proof fn walk_finds_everything(w: World, dir: Text, rel: Text, depth: nat)
    requires
        below_within(w, dir, rel, Seq::empty(), depth) is Some,
        (below_within(w, dir, rel, Seq::empty(), depth)->0).2 is Ok,
    ensures
        ({
            let (after, found, _) = below_within(w, dir, rel, Seq::empty(), depth)->0;
            dir_walked(w, after, dir, rel, found, depth)
        }),
{
    lemma_walked(w, w, dir, rel, Seq::empty(), depth);
}

/// The files among what was found are the items that are no directories.
pub proof fn files_are_what_is_no_directory(found: Seq<ItemView>, path: Text)
    ensures
        files_of(found).contains(path) <==> found.contains(ItemView { path, is_dir: false }),
    decreases found.len(),
{
    let item = ItemView { path, is_dir: false };
    if found.len() > 0 {
        let front = found.drop_last();
        files_are_what_is_no_directory(front, path);
        let files = files_of(found);
        let before = files_of(front);
        if found.contains(item) {
            let k = choose|k: int| 0 <= k < found.len() && found[k] == item;
            if k < front.len() {
                assert(front[k] == item);
                let j = choose|j: int| 0 <= j < before.len() && before[j] == path;
                assert(files[j] == path);
            } else {
                assert(files[files.len() - 1] == path);
            }
        }
        if files.contains(path) {
            let j = choose|j: int| 0 <= j < files.len() && files[j] == path;
            if j < before.len() {
                assert(before[j] == path);
                let k = choose|k: int| 0 <= k < front.len() && front[k] == item;
                assert(found[k] == item);
            } else {
                assert(found[found.len() - 1] == item);
            }
        }
    }
}

// ─── Adding ──────────────────────────────────────────────────────────

/// The file was copied from the checkout to its work directory, and staged there.
pub open spec fn file_added(root: Text, path: Text) -> Seq<Step> {
    let c = Checkout::main_at(root);
    seq![
        Step::Well(
            Call::Copy {
                from: path_join(root, path),
                to: path_join(c.overlay_work(), path),
            },
        ),
    ].push(Step::WorkWell(seq!["add"@, path], c.overlay_work()))
}

proof fn lemma_kept_by_add_file(w0: World, w: World, root: Text, path: Text, steps: Seq<Step>)
    requires
        did(w0, w, steps),
    ensures
        did(w0, add_file_run(w, Checkout::main_at(root), path).0, steps),
{
    broadcast use group_kept;

}

proof fn lemma_file_added(w0: World, w: World, root: Text, path: Text)
    requires
        did(w0, w, Seq::empty()),
        add_file_run(w, Checkout::main_at(root), path).1 is Ok,
    ensures
        did(w0, add_file_run(w, Checkout::main_at(root), path).0, file_added(root, path)),
{
    broadcast use group_kept;

    let c = Checkout::main_at(root);
    let after = add_file_run(w, c, path).0;
    let here = path_join(root, path);
    let there = path_join(c.overlay_work(), path);
    let w1 = w.path_exists(here).0;
    let w2 = place_in_context_run(
        w1,
        here,
        there,
        "failed to copy "@ + path + " to work/"@,
    ).0;
    assert(did(w0, w2, seq![Step::Well(Call::Copy { from: here, to: there })]));
    let w3 = w2.work_git(seq!["add"@, path], c.overlay_work()).0;
    assert(did(w0, w3, file_added(root, path)));
    let (w4, known) = tracked_run(w3, c, path);
    let w5 = if known {
        crate::overlay::hide_run(w4, c, path)
    } else {
        w4
    };
    assert(did(w0, w5, file_added(root, path)));
    assert(after == sync_run(w5, c).0);
}

proof fn lemma_kept_by_add_each(
    w0: World,
    w: World,
    root: Text,
    files: Seq<Text>,
    i: nat,
    steps: Seq<Step>,
)
    requires
        did(w0, w, steps),
    ensures
        did(w0, add_each_run(w, root, files, i).0, steps),
    decreases files.len() - i,
{
    if i < files.len() {
        let file = files[i as int];
        lemma_kept_by_add_file(w0, w, root, file, steps);
        let (w1, done) = add_file_run(w, Checkout::main_at(root), file);
        if done is Ok {
            let w2 = w1.note("[subcontext] Added: "@ + file);
            assert(did(w0, w2, steps));
            lemma_kept_by_add_each(w0, w2, root, files, i + 1, steps);
        }
    }
}

proof fn lemma_each_added(w0: World, w: World, root: Text, files: Seq<Text>, i: nat, k: int)
    requires
        did(w0, w, Seq::empty()),
        i <= k < files.len(),
        add_each_run(w, root, files, i).1 is Ok,
    ensures
        did(w0, add_each_run(w, root, files, i).0, file_added(root, files[k])),
    decreases files.len() - i,
{
    let file = files[i as int];
    let (w1, done) = add_file_run(w, Checkout::main_at(root), file);
    let w2 = w1.note("[subcontext] Added: "@ + file);
    lemma_kept_by_add_file(w0, w, root, file, Seq::empty());
    assert(did(w0, w2, Seq::empty()));
    if i < k {
        lemma_each_added(w0, w2, root, files, i + 1, k);
    } else {
        lemma_file_added(w0, w, root, file);
        assert(did(w0, w2, file_added(root, file)));
        lemma_kept_by_add_each(w0, w2, root, files, i + 1, file_added(root, file));
    }
}

/// Was every file added that was found?
pub open spec fn found_added(w0: World, w: World, root: Text, found: Seq<ItemView>) -> bool {
    forall|path: Text|
        found.contains(ItemView { path, is_dir: false }) ==> did(
            w0,
            w,
            #[trigger] file_added(root, path),
        )
}

/// Was the path added: the file there, or every file below the directory there
/// but what is named `.git`?
pub open spec fn path_added(w0: World, w: World, root: Text, path: Text, depth: nat) -> bool {
    let at = path_join(root, path);
    ||| did(w0, w, seq![Step::No(Call::IsDir(at))]) && did(w0, w, file_added(root, path))
    ||| did(w0, w, seq![Step::Yes(Call::IsDir(at))]) && exists|found: Seq<ItemView>| #[trigger]
        found_added(w0, w, root, found) && dir_walked(w0, w, at, path, found, depth)
}

proof fn lemma_path_added(w0: World, w: World, root: Text, path: Text, depth: nat)
    requires
        did(w0, w, Seq::empty()),
    ensures
        add_path_within(w, root, path, depth) matches Some(end) ==> {
            &&& did(w0, end.0, Seq::empty())
            &&& end.1 is Ok ==> path_added(w0, end.0, root, path, depth)
        },
{
    let at = path_join(root, path);
    let (w1, is_dir) = w.is_dir(at);
    assert(did(w0, w1, Seq::empty()));
    let end = add_path_within(w, root, path, depth);
    if !is_dir {
        let no = seq![Step::No(Call::IsDir(at))];
        assert(did(w0, w1, no));
        lemma_kept_by_add_each(w0, w1, root, seq![path], 0, no);
        lemma_kept_by_add_each(w0, w1, root, seq![path], 0, Seq::empty());
        if (end->0).1 is Ok {
            lemma_each_added(w0, w1, root, seq![path], 0, 0);
        }
    } else {
        let yes = seq![Step::Yes(Call::IsDir(at))];
        assert(did(w0, w1, yes));
        lemma_kept_by_below(w0, w1, at, path, Seq::empty(), depth, yes);
        lemma_kept_by_below(w0, w1, at, path, Seq::empty(), depth, Seq::empty());
        lemma_walked(w0, w1, at, path, Seq::empty(), depth);
        if let Some((w2, found, Ok(_))) = below_within(w1, at, path, Seq::empty(), depth) {
            let files = files_of(found);
            lemma_kept_by_add_each(w0, w2, root, files, 0, yes);
            lemma_kept_by_add_each(w0, w2, root, files, 0, Seq::empty());
            lemma_kept_by_add_each(w2, w2, root, files, 0, Seq::empty());
            let after = add_each_run(w2, root, files, 0).0;
            if (end->0).1 is Ok {
                lemma_still_walked(w0, w2, after, at, path, found, found, depth);
                assert forall|p: Text|
                    found.contains(ItemView { path: p, is_dir: false }) implies did(
                    w0,
                    after,
                    #[trigger] file_added(root, p),
                ) by {
                    files_are_what_is_no_directory(found, p);
                    let k = choose|k: int| 0 <= k < files.len() && files[k] == p;
                    lemma_each_added(w0, w2, root, files, 0, k);
                }
                assert(found_added(w0, after, root, found));
            }
        }
    }
}

proof fn lemma_kept_by_add_path(
    w0: World,
    w: World,
    root: Text,
    path: Text,
    depth: nat,
    steps: Seq<Step>,
)
    requires
        did(w0, w, steps),
    ensures
        add_path_within(w, root, path, depth) matches Some(end) ==> did(w0, end.0, steps),
{
    let at = path_join(root, path);
    let (w1, is_dir) = w.is_dir(at);
    assert(did(w0, w1, steps));
    if !is_dir {
        lemma_kept_by_add_each(w0, w1, root, seq![path], 0, steps);
    } else {
        lemma_kept_by_below(w0, w1, at, path, Seq::empty(), depth, steps);
        if let Some((w2, found, Ok(_))) = below_within(w1, at, path, Seq::empty(), depth) {
            lemma_kept_by_add_each(w0, w2, root, files_of(found), 0, steps);
        }
    }
}

proof fn lemma_kept_by_add_from(
    w0: World,
    w: World,
    cwd: Text,
    root: Text,
    files: Seq<Text>,
    i: nat,
    depth: nat,
    steps: Seq<Step>,
)
    requires
        did(w0, w, steps),
    ensures
        add_from_within(w, cwd, root, files, i, depth) matches Some(end) ==> did(
            w0,
            end.0,
            steps,
        ),
    decreases files.len() - i,
{
    if i < files.len() {
        let (w1, resolved) = resolve_file_run(w, cwd, root, files[i as int]);
        assert(did(w0, w1, steps));
        if resolved is Ok {
            lemma_kept_by_add_path(w0, w1, root, resolved->Ok_0, depth, steps);
            if let Some((w2, Ok(_))) = add_path_within(w1, root, resolved->Ok_0, depth) {
                lemma_kept_by_add_from(w0, w2, cwd, root, files, i + 1, depth, steps);
            }
        }
    }
}

/// Is this the path of the file from the root: what is left of the file's real
/// path behind the root's real path?
pub open spec fn is_resolved(w0: World, w: World, cwd: Text, root: Text, file: Text, rel: Text) -> bool {
    exists|abs: Text, top: Text| #[trigger]
        is_real(w0, w, path_join(cwd, file), abs) && #[trigger] is_real(w0, w, root, top)
            && relative_to(abs, top) == Some(rel)
}

/// Is this the real path: the one that was told, or the path itself where none
/// was?
pub open spec fn is_real(w0: World, w: World, path: Text, goal: Text) -> bool {
    ||| did(w0, w, seq![Step::Told(Call::Canonicalize(path), goal)])
    ||| goal == path && did(w0, w, seq![Step::Ill(Call::Canonicalize(path))])
}

proof fn lemma_resolved(w0: World, w: World, cwd: Text, root: Text, file: Text)
    requires
        did(w0, w, Seq::empty()),
    ensures
        did(w0, resolve_file_run(w, cwd, root, file).0, Seq::empty()),
        resolve_file_run(w, cwd, root, file).1 matches Ok(rel) ==> is_resolved(
            w0,
            resolve_file_run(w, cwd, root, file).0,
            cwd,
            root,
            file,
            rel,
        ),
{
    let (after, rel) = resolve_file_run(w, cwd, root, file);
    let (w1, abs) = canonical_run(w, path_join(cwd, file));
    let (w2, top) = canonical_run(w1, root);
    assert(is_real(w0, w1, path_join(cwd, file), abs));
    assert(is_real(w0, after, path_join(cwd, file), abs));
    assert(is_real(w0, after, root, top));
}

proof fn lemma_still_real(w0: World, w: World, after: World, path: Text, goal: Text)
    requires
        is_real(w0, w, path, goal),
        did(w, after, Seq::empty()),
    ensures
        is_real(w0, after, path, goal),
{
    let told = seq![Step::Told(Call::Canonicalize(path), goal)];
    let not = seq![Step::Ill(Call::Canonicalize(path))];
    if did(w0, w, told) {
        lemma_did_before(w0, w, after, told);
    } else {
        lemma_did_before(w0, w, after, not);
    }
}

/// Was the file that was named added, under its path from the root?
pub open spec fn name_added(
    w0: World,
    w: World,
    cwd: Text,
    root: Text,
    file: Text,
    depth: nat,
) -> bool {
    exists|rel: Text, from: World, to: World| #[trigger]
        is_resolved(w0, from, cwd, root, file, rel) && #[trigger] path_added(
            from,
            to,
            root,
            rel,
            depth,
        ) && did(to, w, Seq::empty())
}

proof fn lemma_names_added(
    w0: World,
    w: World,
    cwd: Text,
    root: Text,
    files: Seq<Text>,
    i: nat,
    depth: nat,
    k: int,
)
    requires
        did(w0, w, Seq::empty()),
        i <= k < files.len(),
        add_from_within(w, cwd, root, files, i, depth) is Some,
        (add_from_within(w, cwd, root, files, i, depth)->0).1 is Ok,
    ensures
        name_added(
            w0,
            (add_from_within(w, cwd, root, files, i, depth)->0).0,
            cwd,
            root,
            files[k],
            depth,
        ),
    decreases files.len() - i,
{
    lemma_resolved(w0, w, cwd, root, files[i as int]);
    let (w1, resolved) = resolve_file_run(w, cwd, root, files[i as int]);
    let rel = resolved->Ok_0;
    lemma_path_added(w0, w1, root, rel, depth);
    lemma_path_added(w1, w1, root, rel, depth);
    let (w2, _) = add_path_within(w1, root, rel, depth)->0;
    if i < k {
        lemma_names_added(w0, w2, cwd, root, files, i + 1, depth, k);
    } else {
        let after = (add_from_within(w, cwd, root, files, i, depth)->0).0;
        lemma_kept_by_add_from(w2, w2, cwd, root, files, i + 1, depth, Seq::empty());
        assert(is_resolved(w0, w1, cwd, root, files[k], rel));
        assert(path_added(w1, w2, root, rel, depth));
        assert(did(w2, after, Seq::empty()));
    }
}

/// Adding files adds each that was named, under its path from the root of the
/// main checkout: the file itself, or every file below it where it is a
/// directory.
pub proof fn every_named_file_is_added(
    w: World,
    cwd: Text,
    files: Seq<Text>,
    depth: nat,
    k: int,
)
    requires
        0 <= k < files.len(),
        add_files_within(w, cwd, files, depth) is Some,
        (add_files_within(w, cwd, files, depth)->0).1 is Ok,
    ensures
        find_main_run(w, cwd).1 is Ok,
        name_added(
            find_main_run(w, cwd).0,
            (add_files_within(w, cwd, files, depth)->0).0,
            cwd,
            find_main_run(w, cwd).1->Ok_0,
            files[k],
            depth,
        ),
{
    let (w1, root) = find_main_run(w, cwd);
    lemma_names_added(w1, w1, cwd, root->Ok_0, files, 0, depth, k);
}

// ─── Removing ────────────────────────────────────────────────────────

/// Was the file that was named removed from the overlay, under its path from the
/// root: out of the work directory, and then out of the checkout?
pub open spec fn name_removed(w0: World, w: World, cwd: Text, root: Text, file: Text) -> bool {
    let c = Checkout::main_at(root);
    exists|rel: Text, from: World, to: World, end: World| #[trigger]
        is_resolved(w0, from, cwd, root, file, rel) && #[trigger] did(
            from,
            to,
            seq![Step::WorkWell(removal(rel), c.overlay_work())],
        ) && #[trigger] file_withdrawn(to, end, c, rel) && did(end, w, Seq::empty())
}

/// The arguments that have git remove a file.
pub open spec fn removal(path: Text) -> Seq<Text> {
    seq!["rm"@, "-f"@, path]
}

proof fn lemma_kept_by_remove_file(w0: World, w: World, root: Text, path: Text, steps: Seq<Step>)
    requires
        did(w0, w, steps),
    ensures
        did(w0, remove_file_run(w, Checkout::main_at(root), path).0, steps),
{
    broadcast use group_kept;

}

proof fn lemma_kept_by_remove_from(
    w0: World,
    w: World,
    cwd: Text,
    root: Text,
    files: Seq<Text>,
    i: nat,
    steps: Seq<Step>,
)
    requires
        did(w0, w, steps),
    ensures
        did(w0, remove_from_run(w, cwd, root, files, i).0, steps),
    decreases files.len() - i,
{
    if i < files.len() {
        let (w1, resolved) = resolve_file_run(w, cwd, root, files[i as int]);
        assert(did(w0, w1, steps));
        if resolved is Ok {
            let rel = resolved->Ok_0;
            lemma_kept_by_remove_file(w0, w1, root, rel, steps);
            let (w2, done) = remove_file_run(w1, Checkout::main_at(root), rel);
            if done is Ok {
                let w3 = w2.note("[subcontext] Removed: "@ + rel);
                assert(did(w0, w3, steps));
                lemma_kept_by_remove_from(w0, w3, cwd, root, files, i + 1, steps);
            }
        }
    }
}

proof fn lemma_names_removed(
    w0: World,
    w: World,
    cwd: Text,
    root: Text,
    files: Seq<Text>,
    i: nat,
    k: int,
)
    requires
        did(w0, w, Seq::empty()),
        i <= k < files.len(),
        remove_from_run(w, cwd, root, files, i).1 is Ok,
    ensures
        name_removed(w0, remove_from_run(w, cwd, root, files, i).0, cwd, root, files[k]),
    decreases files.len() - i,
{
    broadcast use group_kept;

    let c = Checkout::main_at(root);
    lemma_resolved(w0, w, cwd, root, files[i as int]);
    let (w1, resolved) = resolve_file_run(w, cwd, root, files[i as int]);
    let rel = resolved->Ok_0;
    let (w2, done) = remove_file_run(w1, c, rel);
    let w3 = w2.note("[subcontext] Removed: "@ + rel);
    lemma_kept_by_remove_file(w0, w1, root, rel, Seq::empty());
    assert(did(w0, w3, Seq::empty()));
    if i < k {
        lemma_names_removed(w0, w3, cwd, root, files, i + 1, k);
    } else {
        let after = remove_from_run(w, cwd, root, files, i).0;
        let g = w1.work_git(removal(rel), c.overlay_work()).0;
        assert(did(w1, g, seq![Step::WorkWell(removal(rel), c.overlay_work())]));
        let t = withdraw_run(g, c, rel);
        lemma_withdrawn(g, g, c, rel);
        assert(did(t, t, Seq::empty()));
        assert(did(t, w2, Seq::empty()));
        assert(did(t, w3, Seq::empty()));
        lemma_kept_by_remove_from(t, w3, cwd, root, files, i + 1, Seq::empty());
        assert(after == remove_from_run(w3, cwd, root, files, i + 1).0);
        assert(is_resolved(w0, w1, cwd, root, files[k], rel));
        assert(file_withdrawn(g, t, c, rel));
        assert(did(t, after, Seq::empty()));
    }
}

/// Removing files removes each that was named from the overlay, under its path
/// from the root of the main checkout.
pub proof fn every_named_file_is_removed(w: World, cwd: Text, files: Seq<Text>, k: int)
    requires
        0 <= k < files.len(),
        remove_files_run(w, cwd, files).1 is Ok,
    ensures
        find_main_run(w, cwd).1 is Ok,
        name_removed(
            find_main_run(w, cwd).0,
            remove_files_run(w, cwd, files).0,
            cwd,
            find_main_run(w, cwd).1->Ok_0,
            files[k],
        ),
{
    let (w1, root) = find_main_run(w, cwd);
    lemma_names_removed(w1, w1, cwd, root->Ok_0, files, 0, k);
}

// ─── Saving ──────────────────────────────────────────────────────────

/// The message that a save by hand is committed with.
pub open spec fn saved_as(message: Option<Text>) -> Text {
    match message {
        Some(message) => message,
        None => "manual save"@,
    }
}

/// Saving by hand saves the overlay of the main checkout, with the message that
/// was given or `manual save`, where it has a work directory.
pub proof fn saving_by_hand_saves_the_overlay(w: World, cwd: Text, message: Option<Text>)
    requires
        find_main_run(w, cwd).1 is Ok,
        ({
            let w1 = find_main_run(w, cwd).0;
            (w1.flag)(w1.calls.len())
        }),
        save_changes_run(w, cwd, message).1 is Ok,
    ensures
        ({
            let (w1, root) = find_main_run(w, cwd);
            exists|end: World| #[trigger]
                overlay_saved(
                    w1,
                    end,
                    Checkout::main_at(root->Ok_0),
                    saved_as(message),
                ) && did(end, save_changes_run(w, cwd, message).0, Seq::empty())
        }),
{
    let (w1, root) = find_main_run(w, cwd);
    let c = Checkout::main_at(root->Ok_0);
    let text = saved_as(message);
    lemma_save(w1, w1, c, text);
    let w2 = save_run(w1, c, text).0;
    assert(overlay_saved(w1, w2, c, text));
    assert(did(w2, w2, Seq::empty()));
}

// ─── Hooks ───────────────────────────────────────────────────────────

proof fn lemma_kept_by_old_hook(
    w0: World,
    w: World,
    root: Text,
    name: Text,
    args: Seq<Text>,
    steps: Seq<Step>,
)
    requires
        did(w0, w, steps),
    ensures
        did(w0, old_hook_run(w, root, name, args).0, steps),
{
}

/// A hook acts on the checkout that it is run in: after a checkout of the host
/// everything that belongs to one is done with the overlay of that checkout, a
/// failure of it is told, and then the user's own hook is run with the same
/// arguments.
pub proof fn checkout_hook_acts_on_its_checkout(
    w: World,
    cwd: Text,
    prev: Text,
    new: Text,
    flag: Text,
)
    requires
        find_checkout_run(w, cwd).1 is Ok,
    ensures
        ({
            let (w1, c) = find_checkout_run(w, cwd);
            let c = c->Ok_0;
            let (w2, done) = checkout_run(w1, c, prev, new, flag);
            let (after, result) = on_checkout_run(w, cwd, prev, new, flag);
            &&& did(w2, after, Seq::empty())
            &&& (after, result) == old_hook_run(
                told(w2, "post-checkout"@, done),
                c.main_root,
                "post-checkout"@,
                seq![prev, new, flag],
            )
            &&& done is Err ==> did(
                w2,
                after,
                seq![
                    Step::Just(
                        Call::Note(
                            "[subcontext] warning: "@ + "post-checkout"@ + " hook failed: "@
                                + joined(done->Err_0, ": "@),
                        ),
                    ),
                ],
            )
        }),
{
    let (w1, c) = find_checkout_run(w, cwd);
    let c = c->Ok_0;
    let (w2, done) = checkout_run(w1, c, prev, new, flag);
    let w3 = told(w2, "post-checkout"@, done);
    let args = seq![prev, new, flag];
    assert(did(w2, w3, Seq::empty()));
    lemma_kept_by_old_hook(w2, w3, c.main_root, "post-checkout"@, args, Seq::empty());
    if done is Err {
        let line = seq![
            Step::Just(
                Call::Note(
                    "[subcontext] warning: "@ + "post-checkout"@ + " hook failed: "@ + joined(
                        done->Err_0,
                        ": "@,
                    ),
                ),
            ),
        ];
        assert(did(w2, w3, line));
        lemma_kept_by_old_hook(w2, w3, c.main_root, "post-checkout"@, args, line);
    }
}

/// The same after a commit of the host.
pub proof fn commit_hook_acts_on_its_checkout(w: World, cwd: Text)
    requires
        find_checkout_run(w, cwd).1 is Ok,
    ensures
        ({
            let (w1, c) = find_checkout_run(w, cwd);
            let c = c->Ok_0;
            let (w2, done) = commit_run(w1, c);
            let (after, result) = on_commit_run(w, cwd);
            &&& did(w2, after, Seq::empty())
            &&& (after, result) == old_hook_run(
                told(w2, "post-commit"@, done),
                c.main_root,
                "post-commit"@,
                Seq::empty(),
            )
        }),
{
    let (w1, c) = find_checkout_run(w, cwd);
    let c = c->Ok_0;
    let (w2, done) = commit_run(w1, c);
    let w3 = told(w2, "post-commit"@, done);
    assert(did(w2, w3, Seq::empty()));
    lemma_kept_by_old_hook(w2, w3, c.main_root, "post-commit"@, Seq::empty(), Seq::empty());
}

// ─── UUIDs, parents and children ─────────────────────────────────────

/// The UUID that is told is the one of the repository that the command is run in,
/// as its configuration holds it, or outside of any the one of the system
/// subcontext.
pub proof fn uuid_is_that_of_the_repository(w: World, env: EnvView, cwd: Text)
    requires
        uuid_run(w, env, cwd).1 is Ok,
    ensures
        ({
            let (after, uuid) = uuid_run(w, env, cwd);
            let (w1, root) = find_main_run(w, cwd);
            exists|content: Text| #[trigger]
                did(
                    w1,
                    after,
                    seq![Step::Told(Call::Read(uuid_file(env, root)), content)],
                ) && holds(content, "project_uuid:"@, uuid->Ok_0)
        }),
{
    let (after, uuid) = uuid_run(w, env, cwd);
    let (w1, root) = find_main_run(w, cwd);
    let from = if root is Ok {
        w1
    } else {
        exists_run(w1, env).0
    };
    let file = uuid_file(env, root);
    let (w2, content) = from.read(file);
    assert(did(w1, from, Seq::empty()));
    assert(after == w2);
    value_is_on_its_line(content->Ok_0, "project_uuid:"@, uuid->Ok_0);
    assert(did(w1, after, seq![Step::Told(Call::Read(file), content->Ok_0)]));
}

/// The configuration of the repository at the root or, where there is none, of the
/// system subcontext.
pub open spec fn uuid_file(env: EnvView, root: Outcome<Text>) -> Text {
    match root {
        Ok(root) => path_join(config_path(root), "subcontext.yaml"@),
        Err(_) => path_join(
            path_join(path_join(root_of(env)->Ok_0, "global"@), "config"@),
            "subcontext.yaml"@,
        ),
    }
}

/// The parent that is shown is the one that the database tells of the
/// repository's own UUID, with its kind behind it.
pub proof fn parent_is_shown_with_its_kind(w: World, env: EnvView, cwd: Text)
    requires
        parent_run(w, env, cwd).1 is Ok,
    ensures
        ({
            let (after, shown) = parent_run(w, env, cwd);
            let (w1, uuid) = local_uuid_run(w, cwd);
            let (w2, parent) = get_parent_run(w1, env, uuid->Ok_0);
            &&& uuid is Ok
            &&& parent is Ok
            &&& match parent->Ok_0 {
                None => shown->Ok_0 is None,
                Some(parent) => exists|kind: Text|
                    shown->Ok_0 == Some(#[trigger] with_kind(parent, kind)),
            }
        }),
{
    let (after, shown) = parent_run(w, env, cwd);
    let (w1, uuid) = local_uuid_run(w, cwd);
    let (w2, parent) = get_parent_run(w1, env, uuid->Ok_0);
    if parent is Ok && parent->Ok_0 is Some {
        let parent = parent->Ok_0->0;
        let kind = match root_of(env) {
            Err(e) => Err(e),
            Ok(root) => kind_run(
                w2,
                crate::global::repo_in(crate::global::base_of(root)),
                parent,
                "unknown"@,
            ).1,
        };
        assert(shown->Ok_0 == Some(with_kind(parent, kind_or_unknown(kind))));
    }
}

/// A UUID with a kind behind it.
pub open spec fn with_kind(uuid: Text, kind: Text) -> Text {
    uuid + " ("@ + kind + ")"@
}

proof fn lemma_titles(
    w: World,
    env: EnvView,
    uuids: Seq<Text>,
    i: nat,
    told: Seq<Text>,
)
    requires
        told.len() == i <= uuids.len(),
        forall|k: int| 0 <= k < i ==> (uuids[k] + " ("@).is_prefix_of(#[trigger] told[k]),
    ensures
        ({
            let all = titles_run(w, env, uuids, i, told).1;
            all.len() == uuids.len() && forall|k: int|
                0 <= k < uuids.len() ==> (uuids[k] + " ("@).is_prefix_of(#[trigger] all[k])
        }),
    decreases uuids.len() - i,
{
    if i < uuids.len() {
        let (w1, title) = titled_run(w, env, uuids[i as int]);
        let head = uuids[i as int] + " ("@;
        assert(title.subrange(0, head.len() as int) =~= head);
        let more = told.push(title);
        assert forall|k: int| 0 <= k < i + 1 implies (uuids[k] + " ("@).is_prefix_of(
            #[trigger] more[k],
        ) by {
            if k < i {
                assert(more[k] == told[k]);
            }
        }
        lemma_titles(w1, env, uuids, i + 1, more);
    }
}

/// Each child that the database tells of the repository's own UUID is shown on a
/// line of its own, in the database's order.
pub proof fn every_child_is_shown(w: World, env: EnvView, cwd: Text)
    requires
        child_lines_run(w, env, cwd).1 is Ok,
    ensures
        ({
            let (after, lines) = child_lines_run(w, env, cwd);
            let (w1, uuid) = local_uuid_run(w, cwd);
            let children = children_run(w1, env, uuid->Ok_0).1;
            &&& uuid is Ok
            &&& children is Ok
            &&& lines->Ok_0.len() == children->Ok_0.len()
            &&& forall|k: int|
                0 <= k < children->Ok_0.len() ==> (children->Ok_0[k] + " ("@).is_prefix_of(
                    #[trigger] lines->Ok_0[k],
                )
        }),
{
    let (w1, uuid) = local_uuid_run(w, cwd);
    let (w2, children) = children_run(w1, env, uuid->Ok_0);
    if children is Ok {
        lemma_titles(w2, env, children->Ok_0, 0, Seq::empty());
    }
}

// ─── Submodules ──────────────────────────────────────────────────────

/// A submodule is added to the overlay of the main checkout, at the path from its
/// root that was resolved where one was given.
pub proof fn submodule_is_added_to_the_main_checkout(
    w: World,
    cwd: Text,
    url: Text,
    path: Option<Text>,
)
    requires
        add_submodule_run(w, cwd, url, path).1 is Ok,
    ensures
        ({
            let (w1, root) = find_main_run(w, cwd);
            let c = Checkout::main_at(root->Ok_0);
            &&& root is Ok
            &&& match path {
                None => add_submodule_run(w, cwd, url, path) == crate::submodule::add_run(
                    w1,
                    c,
                    url,
                    None,
                ),
                Some(path) => {
                    let (w2, rel) = resolve_new_run(w1, cwd, root->Ok_0, path);
                    rel is Ok && add_submodule_run(w, cwd, url, Some(path))
                        == crate::submodule::add_run(w2, c, url, Some(rel->Ok_0))
                },
            }
        }),
{
}

/// A submodule is removed from the overlay of the main checkout, at the path from
/// its root that was resolved.
pub proof fn submodule_is_removed_from_the_main_checkout(w: World, cwd: Text, path: Text)
    requires
        remove_submodule_run(w, cwd, path).1 is Ok,
    ensures
        ({
            let (w1, root) = find_main_run(w, cwd);
            let (w2, rel) = resolve_new_run(w1, cwd, root->Ok_0, path);
            &&& root is Ok
            &&& rel is Ok
            &&& remove_submodule_run(w, cwd, path) == crate::submodule::remove_run(
                w2,
                Checkout::main_at(root->Ok_0),
                rel->Ok_0,
            )
        }),
{
}

/// A path that is resolved is the part of it behind the root's real path: of its
/// real path or, where that cannot be told, of the path itself, taken from where
/// the command is run.
pub proof fn new_path_is_resolved_from_the_root(w: World, cwd: Text, root: Text, path: Text)
    requires
        resolve_new_run(w, cwd, root, path).1 is Ok,
    ensures
        ({
            let (after, rel) = resolve_new_run(w, cwd, root, path);
            exists|top: Text, full: Text, abs: Text| #[trigger]
                is_real(w, after, root, top) && #[trigger] taken_from(w, after, cwd, path, full)
                    && #[trigger] is_normal(w, after, full, abs) && relative_to(abs, top) == Some(
                    rel->Ok_0,
                )
        }),
{
    let (after, rel) = resolve_new_run(w, cwd, root, path);
    let (w1, top) = canonical_run(w, root);
    assert(is_real(w, w1, root, top));
    let (w2, full) = if is_rooted(path) {
        (w1, path)
    } else {
        let (h, here) = canonical_run(w1, cwd);
        assert(is_real(w, h, cwd, here));
        (h, path_join(here, path))
    };
    let (w3, resolved) = w2.canonicalize(full);
    let abs = match resolved {
        Ok(resolved) => resolved,
        Err(_) => walked(parts(full)),
    };
    assert(after == w3);
    assert(is_real(w, after, root, top)) by {
        assert(did(w1, w1, Seq::empty()));
        assert(did(w1, after, Seq::empty()));
        lemma_still_real(w, w1, after, root, top);
    }
    if !is_rooted(path) {
        let here = canonical_run(w1, cwd).1;
        assert(is_real(w, w2, cwd, here));
        assert(did(w2, after, Seq::empty()));
        lemma_still_real(w, w2, after, cwd, here);
    }
    assert(taken_from(w, after, cwd, path, full));
    assert(is_normal(w, after, full, abs));
}

/// Is this the path without anything that it is led round by: its real path or,
/// where that cannot be told, the path with its dots resolved?
pub open spec fn is_normal(w0: World, w: World, full: Text, abs: Text) -> bool {
    ||| did(w0, w, seq![Step::Told(Call::Canonicalize(full), abs)])
    ||| abs == walked(parts(full)) && did(w0, w, seq![Step::Ill(Call::Canonicalize(full))])
}

/// Is this the path, taken from where the command is run?
pub open spec fn taken_from(w0: World, w: World, cwd: Text, path: Text, full: Text) -> bool {
    ||| is_rooted(path) && full == path
    ||| !is_rooted(path) && exists|here: Text| #[trigger]
        is_real(w0, w, cwd, here) && full == path_join(here, path)
}

} // verus!
