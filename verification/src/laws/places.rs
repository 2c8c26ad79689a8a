//! Where things are looked for and found.

use vstd::prelude::*;

use crate::git::{
    checkout_above, config_path, find_checkout_run, find_main_run, gitdir_in, gitdir_run,
    great_parent, main_root_above, repo_path, state_path, subcontext_path, work_path, Checkout,
};
use crate::paths::{file_name_of, is_rooted, lemma_parent_shorter, parent_of, path_join};
use crate::text::{trimmed, Text};
use crate::trace::{did, group_did, lemma_did_before, Step};
use crate::world::{Call, World};

verus! {

broadcast use group_did;

// ─── The layout of a subcontext ──────────────────────────────────────

/// A subcontext lies in `.git/.subcontext` of its repository: its bare repo, its
/// configuration, its state and the overlay of the main checkout each in a
/// directory of its own, and the overlay of a linked worktree in one under the
/// worktree's name.
pub proof fn subcontext_lies_in_the_git_directory(root: Text, c: Checkout, name: Text)
    ensures
        ({
            let dir = path_join(path_join(root, ".git"@), ".subcontext"@);
            &&& subcontext_path(root) == dir
            &&& repo_path(root) == path_join(dir, "repo"@)
            &&& config_path(root) == path_join(dir, "config"@)
            &&& state_path(root) == path_join(dir, "state"@)
            &&& work_path(root) == path_join(dir, "work"@)
        }),
        Checkout::main_at(root) == (Checkout {
            main_root: root,
            checkout_root: root,
            worktree_name: None,
        }),
        c.worktree_name is None ==> c.overlay_work() == path_join(
            path_join(path_join(c.main_root, ".git"@), ".subcontext"@),
            "work"@,
        ),
        c.worktree_name == Some(name) ==> c.overlay_work() == path_join(
            path_join(
                path_join(path_join(c.main_root, ".git"@), ".subcontext"@),
                "worktrees"@,
            ),
            name,
        ),
{
}

proof fn lemma_join_is_one(base: Text, a: Text, b: Text)
    requires
        !is_rooted(a),
        !is_rooted(b),
        path_join(base, a) == path_join(base, b),
    ensures
        a == b,
{
    let x = path_join(base, a);
    let y = path_join(base, b);
    assert(x.len() == y.len());
    let n = x.len() - a.len();
    assert(a =~= b) by {
        assert forall|i: int| 0 <= i < a.len() implies a[i] == b[i] by {
            assert(x[n + i] == a[i]);
            assert(y[n + i] == b[i]);
        }
    }
}

/// Two linked worktrees of a repository with different names have overlays in
/// different directories.
pub proof fn worktrees_have_their_own_overlay(a: Checkout, b: Checkout)
    requires
        a.main_root == b.main_root,
        a.worktree_name is Some,
        b.worktree_name is Some,
        !is_rooted(a.worktree_name->0),
        !is_rooted(b.worktree_name->0),
        a.worktree_name != b.worktree_name,
    ensures
        a.overlay_work() != b.overlay_work(),
{
    if a.overlay_work() == b.overlay_work() {
        let dir = path_join(subcontext_path(a.main_root), "worktrees"@);
        lemma_join_is_one(dir, a.worktree_name->0, b.worktree_name->0);
    }
}

// ─── The git directory of a work directory ───────────────────────────

/// A git command in a work directory with this git directory.
pub open spec fn work_call(args: Seq<Text>, work: Text, gitdir: Text) -> Call {
    Call::Git {
        args,
        cwd: work,
        env_set: seq![("GIT_DIR"@, gitdir), ("GIT_WORK_TREE"@, work)],
        env_remove: seq![
            "GIT_INDEX_FILE"@,
            "GIT_OBJECT_DIRECTORY"@,
            "GIT_ALTERNATE_OBJECT_DIRECTORIES"@,
        ],
    }
}

/// Is this the git directory of the work directory: the one that its `.git` file
/// names or, where that is no file, its `.git`?
pub open spec fn is_gitdir(w0: World, w: World, work: Text, gitdir: Text) -> bool {
    let dot = path_join(work, ".git"@);
    ||| gitdir == dot && did(w0, w, seq![Step::No(Call::IsFile(dot))])
    ||| exists|content: Text| #[trigger]
        did(
            w0,
            w,
            seq![Step::Yes(Call::IsFile(dot))].push(Step::Told(Call::Read(dot), content)),
        ) && gitdir == path_join(work, gitdir_in(content))
}

/// A git command in a work directory is run on the git directory that belongs to
/// it, and its answer is git's. It fails only where a request does.
pub proof fn work_command_uses_its_git_directory(w: World, args: Seq<Text>, work: Text)
    ensures
        ({
            let (after, answer) = w.work_git(args, work);
            match answer {
                Ok(text) => exists|gitdir: Text| #[trigger]
                    is_gitdir(w, after, work, gitdir) && did(
                        w,
                        after,
                        seq![Step::Told(work_call(args, work, gitdir), text)],
                    ),
                Err(_) => did(w, after, seq![Step::Refused]),
            }
        }),
{
    let (after, answer) = w.work_git(args, work);
    let dot = path_join(work, ".git"@);
    let (w1, gitdir) = gitdir_run(w, work);
    if gitdir is Ok {
        let gitdir = gitdir->Ok_0;
        let (f, is_file) = w.is_file(dot);
        if is_file {
            let (r, content) = f.read(dot);
            assert(did(
                w,
                w1,
                seq![Step::Yes(Call::IsFile(dot))].push(
                    Step::Told(Call::Read(dot), content->Ok_0),
                ),
            ));
            assert(did(
                w,
                after,
                seq![Step::Yes(Call::IsFile(dot))].push(
                    Step::Told(Call::Read(dot), content->Ok_0),
                ),
            ));
        } else {
            assert(did(w, w1, seq![Step::No(Call::IsFile(dot))]));
            assert(did(w, after, seq![Step::No(Call::IsFile(dot))]));
        }
        assert(is_gitdir(w, after, work, gitdir));
        assert(after == w1.asked(work_call(args, work, gitdir)));
        if answer is Ok {
            assert(did(
                w,
                after,
                seq![Step::Told(work_call(args, work, gitdir), answer->Ok_0)],
            ));
        }
    }
}

/// The path in a `.git` file is what stands behind `gitdir: `, without the space
/// around it.
pub proof fn gitdir_is_behind_its_label(path: Text)
    ensures
        gitdir_in("gitdir: "@ + path) == trimmed(path),
{
    let text = "gitdir: "@ + path;
    assert("gitdir: "@.is_prefix_of(text));
    assert(text.skip("gitdir: "@.len() as int) =~= path);
}

// ─── Finding the repository ──────────────────────────────────────────

/// Is the directory `dir` or one that it lies in?
pub open spec fn at_or_above(top: Text, dir: Text) -> bool
    decreases dir.len(),
{
    proof {
        lemma_parent_shorter(dir);
    }
    top == dir || match parent_of(dir) {
        Some(up) => at_or_above(top, up),
        None => false,
    }
}

/// Was it seen that neither `dir` nor any directory between it and `top` has a
/// `.git`?
pub open spec fn none_below(w0: World, w: World, top: Text, dir: Text) -> bool
    decreases dir.len(),
{
    proof {
        lemma_parent_shorter(dir);
    }
    top == dir || (no_git(w0, w, dir) && match parent_of(dir) {
        Some(up) => none_below(w0, w, top, up),
        None => false,
    })
}

/// Was it seen that the directory has no `.git`?
pub open spec fn no_git(w0: World, w: World, dir: Text) -> bool {
    let dot = path_join(dir, ".git"@);
    did(w0, w, seq![Step::No(Call::IsDir(dot))].push(Step::No(Call::IsFile(dot))))
}

/// Is this the checkout in the directory: the main one where `.git` is a
/// directory, or a linked worktree, whose name and main checkout are those that
/// its `.git` file leads to?
pub open spec fn is_checkout_at(w0: World, w: World, dir: Text, c: Checkout) -> bool {
    let dot = path_join(dir, ".git"@);
    &&& c.checkout_root == dir
    &&& if c.worktree_name is None {
        c.main_root == dir && did(w0, w, seq![Step::Yes(Call::IsDir(dot))])
    } else {
        exists|content: Text, gitdir: Text| #[trigger]
            did(
                w0,
                w,
                seq![Step::Yes(Call::IsFile(dot))].push(
                    Step::Told(Call::Read(dot), content),
                ).push(
                    Step::Told(
                        Call::Canonicalize(path_join(dir, gitdir_in(content))),
                        gitdir,
                    ),
                ),
            ) && file_name_of(gitdir) == c.worktree_name && great_parent(gitdir) is Some
                && parent_of(great_parent(gitdir)->0) == Some(c.main_root)
    }
}

proof fn lemma_kept_by_above(w0: World, w: World, dir: Text, steps: Seq<Step>)
    requires
        did(w0, w, steps),
    ensures
        did(w0, checkout_above(w, dir).0, steps),
    decreases dir.len(),
{
    lemma_parent_shorter(dir);
    let dot = path_join(dir, ".git"@);
    let (w1, is_dir) = w.is_dir(dot);
    assert(did(w0, w1, steps));
    if !is_dir {
        let (w2, is_file) = w1.is_file(dot);
        assert(did(w0, w2, steps));
        if !is_file && parent_of(dir) is Some {
            lemma_kept_by_above(w0, w2, parent_of(dir)->0, steps);
        }
    }
}

proof fn lemma_checkout_above(w0: World, w: World, dir: Text)
    requires
        did(w0, w, Seq::empty()),
    ensures
        checkout_above(w, dir).1 matches Ok(c) ==> {
            let after = checkout_above(w, dir).0;
            &&& is_checkout_at(w0, after, c.checkout_root, c)
            &&& at_or_above(c.checkout_root, dir)
            &&& none_below(w0, after, c.checkout_root, dir)
        },
    decreases dir.len(),
{
    lemma_parent_shorter(dir);
    let dot = path_join(dir, ".git"@);
    let (after, found) = checkout_above(w, dir);
    let (w1, is_dir) = w.is_dir(dot);
    if is_dir {
        assert(did(w0, after, seq![Step::Yes(Call::IsDir(dot))]));
    } else {
        let (w2, is_file) = w1.is_file(dot);
        assert(did(w0, w2, Seq::empty()));
        if is_file {
            if found is Ok {
                let (w3, content) = w2.read(dot);
                let content = content->Ok_0;
                let (w4, gitdir) = w3.canonicalize(path_join(dir, gitdir_in(content)));
                assert(did(
                    w0,
                    after,
                    seq![Step::Yes(Call::IsFile(dot))].push(
                        Step::Told(Call::Read(dot), content),
                    ).push(
                        Step::Told(
                            Call::Canonicalize(path_join(dir, gitdir_in(content))),
                            gitdir->Ok_0,
                        ),
                    ),
                ));
            }
        } else if parent_of(dir) is Some {
            let up = parent_of(dir)->0;
            lemma_checkout_above(w0, w2, up);
            let no = seq![Step::No(Call::IsDir(dot))].push(Step::No(Call::IsFile(dot)));
            assert(did(w0, w2, no));
            lemma_kept_by_above(w0, w2, up, no);
            if found is Ok {
                assert(no_git(w0, after, dir));
                assert(found->Ok_0.checkout_root.len() <= up.len()) by {
                    lemma_above_shorter(found->Ok_0.checkout_root, up);
                }
            }
        }
    }
}

pub proof fn lemma_above_shorter(top: Text, dir: Text)
    requires
        at_or_above(top, dir),
    ensures
        top.len() <= dir.len(),
    decreases dir.len(),
{
    lemma_parent_shorter(dir);
    if top != dir {
        lemma_above_shorter(top, parent_of(dir)->0);
    }
}

/// The checkout that is found is the nearest: it lies in the directory where the
/// search starts or in the next one above that has a `.git`, and it is the main
/// checkout or the linked worktree that this `.git` stands for.
pub proof fn nearest_checkout_is_found(w: World, start: Text)
    requires
        find_checkout_run(w, start).1 is Ok,
    ensures
        ({
            let (after, found) = find_checkout_run(w, start);
            let c = found->Ok_0;
            exists|dir: Text| #[trigger]
                did(w, after, seq![Step::Told(Call::Canonicalize(start), dir)]) && at_or_above(
                    c.checkout_root,
                    dir,
                ) && none_below(w, after, c.checkout_root, dir) && is_checkout_at(
                    w,
                    after,
                    c.checkout_root,
                    c,
                )
        }),
{
    let (w1, dir) = w.canonicalize(start);
    let dir = dir->Ok_0;
    assert(did(w, w1, seq![Step::Told(Call::Canonicalize(start), dir)]));
    lemma_checkout_above(w, w1, dir);
    lemma_kept_by_above(w, w1, dir, seq![Step::Told(Call::Canonicalize(start), dir)]);
}

/// Was it seen that neither `dir` nor any directory between it and `top` holds a
/// main checkout?
pub open spec fn no_main_below(w0: World, w: World, top: Text, dir: Text) -> bool
    decreases dir.len(),
{
    proof {
        lemma_parent_shorter(dir);
    }
    top == dir || (no_main(w0, w, dir) && match parent_of(dir) {
        Some(up) => no_main_below(w0, w, top, up),
        None => false,
    })
}

/// Was it seen that the directory has no `.git`, or one that is neither a file
/// nor a directory?
pub open spec fn no_main(w0: World, w: World, dir: Text) -> bool {
    let dot = path_join(dir, ".git"@);
    ||| did(w0, w, seq![Step::No(Call::Exists(dot))])
    ||| did(w0, w, seq![Step::No(Call::IsFile(dot))].push(Step::No(Call::IsDir(dot))))
}

pub proof fn lemma_kept_by_main_above(w0: World, w: World, dir: Text, steps: Seq<Step>)
    requires
        did(w0, w, steps),
    ensures
        did(w0, main_root_above(w, dir).0, steps),
    decreases dir.len(),
{
    lemma_parent_shorter(dir);
    let dot = path_join(dir, ".git"@);
    let (w1, there) = w.path_exists(dot);
    let (w2, is_file) = if there {
        w1.is_file(dot)
    } else {
        (w1, false)
    };
    let (w3, is_dir) = if there && !is_file {
        w2.is_dir(dot)
    } else {
        (w2, false)
    };
    assert(did(w0, w1, steps));
    assert(did(w0, w2, steps));
    assert(did(w0, w3, steps));
    if !is_file && !is_dir && parent_of(dir) is Some {
        lemma_kept_by_main_above(w0, w3, parent_of(dir)->0, steps);
    }
}

proof fn lemma_main_above(w0: World, w: World, dir: Text)
    requires
        did(w0, w, Seq::empty()),
    ensures
        main_root_above(w, dir).1 matches Ok(root) ==> {
            let after = main_root_above(w, dir).0;
            &&& did(w0, after, seq![Step::Yes(Call::IsDir(path_join(root, ".git"@)))])
            &&& at_or_above(root, dir)
            &&& no_main_below(w0, after, root, dir)
        },
    decreases dir.len(),
{
    lemma_parent_shorter(dir);
    let dot = path_join(dir, ".git"@);
    let (after, found) = main_root_above(w, dir);
    let (w1, there) = w.path_exists(dot);
    let (w2, is_file) = if there {
        w1.is_file(dot)
    } else {
        (w1, false)
    };
    let (w3, is_dir) = if there && !is_file {
        w2.is_dir(dot)
    } else {
        (w2, false)
    };
    assert(did(w0, w3, Seq::empty()));
    if is_dir {
        assert(did(w0, after, seq![Step::Yes(Call::IsDir(dot))]));
    } else if !is_file && parent_of(dir) is Some {
        let up = parent_of(dir)->0;
        lemma_main_above(w0, w3, up);
        let missing = seq![Step::No(Call::Exists(dot))];
        let neither = seq![Step::No(Call::IsFile(dot))].push(Step::No(Call::IsDir(dot)));
        if there {
            assert(did(w0, w3, neither));
            lemma_kept_by_main_above(w0, w3, up, neither);
        } else {
            assert(did(w0, w3, missing));
            lemma_kept_by_main_above(w0, w3, up, missing);
        }
        if found is Ok {
            assert(no_main(w0, after, dir));
            lemma_above_shorter(found->Ok_0, up);
        }
    }
}

/// The root of the main checkout that is found is the nearest: the directory
/// where the search starts, or the next one above, that has a `.git` directory.
pub proof fn nearest_main_root_is_found(w: World, start: Text)
    requires
        find_main_run(w, start).1 is Ok,
    ensures
        ({
            let (after, found) = find_main_run(w, start);
            let root = found->Ok_0;
            exists|dir: Text| #[trigger]
                did(w, after, seq![Step::Told(Call::Canonicalize(start), dir)]) && at_or_above(
                    root,
                    dir,
                ) && no_main_below(w, after, root, dir) && did(
                    w,
                    after,
                    seq![Step::Yes(Call::IsDir(path_join(root, ".git"@)))],
                )
        }),
{
    let (w1, dir) = w.canonicalize(start);
    let dir = dir->Ok_0;
    assert(did(w, w1, seq![Step::Told(Call::Canonicalize(start), dir)]));
    lemma_main_above(w, w1, dir);
    lemma_kept_by_main_above(w, w1, dir, seq![Step::Told(Call::Canonicalize(start), dir)]);
}

/// A repository is found wherever there is one: without an answer, the start could
/// not be resolved, a linked worktree was met, or no directory from the start up
/// has a `.git` directory.
pub proof fn main_root_is_missed_only_where_there_is_none(w: World, start: Text)
    requires
        find_main_run(w, start).1 is Err,
    ensures
        ({
            let after = find_main_run(w, start).0;
            did(w, after, seq![Step::Ill(Call::Canonicalize(start))]) || exists|dir: Text|
                #[trigger]
                did(w, after, seq![Step::Told(Call::Canonicalize(start), dir)]) && (
                no_main_at_all(w, after, dir) || exists|at: Text|
                    at_or_above(at, dir) && #[trigger] did(
                        w,
                        after,
                        seq![Step::Yes(Call::IsFile(path_join(at, ".git"@)))],
                    ))
        }),
{
    let (w1, dir) = w.canonicalize(start);
    if dir is Ok {
        let dir = dir->Ok_0;
        assert(did(w, w1, seq![Step::Told(Call::Canonicalize(start), dir)]));
        lemma_no_main(w, w1, dir);
        lemma_kept_by_main_above(w, w1, dir, seq![Step::Told(Call::Canonicalize(start), dir)]);
    }
}

/// Was it seen that no directory from `dir` up holds a main checkout?
pub open spec fn no_main_at_all(w0: World, w: World, dir: Text) -> bool
    decreases dir.len(),
{
    proof {
        lemma_parent_shorter(dir);
    }
    no_main(w0, w, dir) && match parent_of(dir) {
        Some(up) => no_main_at_all(w0, w, up),
        None => true,
    }
}

proof fn lemma_no_main(w0: World, w: World, dir: Text)
    requires
        did(w0, w, Seq::empty()),
        main_root_above(w, dir).1 is Err,
    ensures
        ({
            let after = main_root_above(w, dir).0;
            no_main_at_all(w0, after, dir) || exists|at: Text|
                at_or_above(at, dir) && #[trigger] did(
                    w0,
                    after,
                    seq![Step::Yes(Call::IsFile(path_join(at, ".git"@)))],
                )
        }),
    decreases dir.len(),
{
    lemma_parent_shorter(dir);
    let dot = path_join(dir, ".git"@);
    let after = main_root_above(w, dir).0;
    let (w1, there) = w.path_exists(dot);
    let (w2, is_file) = if there {
        w1.is_file(dot)
    } else {
        (w1, false)
    };
    let (w3, is_dir) = if there && !is_file {
        w2.is_dir(dot)
    } else {
        (w2, false)
    };
    assert(did(w0, w3, Seq::empty()));
    let missing = seq![Step::No(Call::Exists(dot))];
    let neither = seq![Step::No(Call::IsFile(dot))].push(Step::No(Call::IsDir(dot)));
    if is_file {
        assert(did(w0, after, seq![Step::Yes(Call::IsFile(path_join(dir, ".git"@)))]));
        assert(at_or_above(dir, dir));
    } else {
        if there {
            assert(did(w0, w3, neither));
        } else {
            assert(did(w0, w3, missing));
        }
        if parent_of(dir) is Some {
            let up = parent_of(dir)->0;
            lemma_no_main(w0, w3, up);
            if there {
                lemma_kept_by_main_above(w0, w3, up, neither);
            } else {
                lemma_kept_by_main_above(w0, w3, up, missing);
            }
            if !no_main_at_all(w0, after, up) {
                let at = choose|at: Text|
                    at_or_above(at, up) && #[trigger] did(
                        w0,
                        after,
                        seq![Step::Yes(Call::IsFile(path_join(at, ".git"@)))],
                    );
                assert(at_or_above(at, dir));
            }
        }
    }
}

} // verus!
