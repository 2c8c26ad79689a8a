//! What checking a board tells, how a board is made, and how numbers and time
//! spans are read.

use vstd::prelude::*;

use crate::board::{create_branch_run, create_run, furnish_run, task_md, worktree_run, BoardView};
use crate::board_check::{
    check_within, differences, gather_each_within, gather_within, integrity_issues, strays,
    told_run,
};
use crate::failure::Outcome;
use crate::frontmatter::{frontmatter_of, value_for};
use crate::horizon::{horizon_of, Unit};
use crate::laws::board::{frontmatter_value_is_on_its_line, task_read, tells};
use crate::laws::overlay::{committed, group_kept, lemma_committed};
use crate::number::{digit_value, digits_read, integer_read, is_digit};
use crate::paths::path_join;
use crate::text::{decimal, digit_char, without_suffix, Text};
use crate::trace::{bare_call, did, group_did, lemma_did_before, Step};
use crate::world::{Call, ListingView, World};

verus! {

broadcast use group_did;

// ─── Differences ─────────────────────────────────────────────────────

/// Is the line the one that tells of a text that only the first row holds?
pub open spec fn tells_stray(
    line: Text,
    texts: Seq<Text>,
    others: Seq<Text>,
    head: Text,
    tail: Text,
) -> bool {
    exists|u: Text| #[trigger]
        texts.contains(u) && !others.contains(u) && line == head + u + tail
}

proof fn lemma_strays(texts: Seq<Text>, others: Seq<Text>, head: Text, tail: Text, line: Text)
    ensures
        strays(texts, others, head, tail).contains(line) <==> tells_stray(
            line,
            texts,
            others,
            head,
            tail,
        ),
    decreases texts.len(),
{
    let all = strays(texts, others, head, tail);
    if texts.len() > 0 {
        let front = texts.drop_last();
        let last = texts.last();
        let before = strays(front, others, head, tail);
        lemma_strays(front, others, head, tail, line);
        if all.contains(line) && !before.contains(line) {
            let k = choose|k: int| 0 <= k < all.len() && all[k] == line;
            if k < before.len() {
                assert(before[k] == line);
            }
            assert(texts[texts.len() - 1] == last);
            assert(texts.contains(last));
        }
        if before.contains(line) {
            let k = choose|k: int| 0 <= k < before.len() && before[k] == line;
            assert(all[k] == line);
            let u = choose|u: Text| #[trigger]
                front.contains(u) && !others.contains(u) && line == head + u + tail;
            let j = choose|j: int| 0 <= j < front.len() && front[j] == u;
            assert(texts[j] == u);
            assert(texts.contains(u));
        }
        if tells_stray(line, texts, others, head, tail) {
            let u = choose|u: Text| #[trigger]
                texts.contains(u) && !others.contains(u) && line == head + u + tail;
            let j = choose|j: int| 0 <= j < texts.len() && texts[j] == u;
            if j < front.len() {
                assert(front[j] == u);
                assert(front.contains(u));
            } else if front.contains(last) {
                assert(front.contains(u));
            } else {
                assert(all[all.len() - 1] == line);
            }
        }
    }
}

/// A check tells of each task that only the database or only the tree holds, by
/// its UUID, and of nothing else.
pub proof fn every_difference_is_told(in_db: Seq<Text>, in_tree: Seq<Text>, line: Text)
    ensures
        differences(in_db, in_tree).contains(line) <==> tells_stray(
            line,
            in_db,
            in_tree,
            "DB has task "@,
            " but no TASK.md found in tree"@,
        ) || tells_stray(
            line,
            in_tree,
            in_db,
            "Tree has TASK.md with uuid "@,
            " but no DB row"@,
        ),
{
    let a = strays(in_db, in_tree, "DB has task "@, " but no TASK.md found in tree"@);
    let b = strays(in_tree, in_db, "Tree has TASK.md with uuid "@, " but no DB row"@);
    lemma_strays(in_db, in_tree, "DB has task "@, " but no TASK.md found in tree"@, line);
    lemma_strays(in_tree, in_db, "Tree has TASK.md with uuid "@, " but no DB row"@, line);
    let all = a + b;
    if all.contains(line) {
        let k = choose|k: int| 0 <= k < all.len() && all[k] == line;
        if k < a.len() {
            assert(a[k] == line);
        } else {
            assert(b[k - a.len()] == line);
        }
    }
    if a.contains(line) {
        let k = choose|k: int| 0 <= k < a.len() && a[k] == line;
        assert(all[k] == line);
    }
    if b.contains(line) {
        let k = choose|k: int| 0 <= k < b.len() && b[k] == line;
        assert(all[a.len() + k] == line);
    }
}

// ─── Gathering the tree ──────────────────────────────────────────────

/// Is the UUID that the task file of the directory tells, where it has one that
/// tells one, among those found, and are those of the directories in it?
pub open spec fn dir_gathered(
    w0: World,
    w: World,
    dir: Text,
    found: Seq<Text>,
    depth: nat,
) -> bool
    decreases depth, 0int,
{
    &&& depth > 0
    &&& did(w0, w, seq![Step::No(Call::Exists(path_join(dir, "TASK.md"@)))]) || exists|
        content: Text,
    | #[trigger]
        did(w0, w, task_read(dir, content)) && forall|uuid: Text| #[trigger]
            tells(content, "uuid"@, uuid) ==> found.contains(uuid)
    &&& all_gathered(w0, w, dir, found, (depth - 1) as nat)
}

/// Was every directory in `dir` gathered, as far as `dir` can be listed?
pub open spec fn all_gathered(w0: World, w: World, dir: Text, found: Seq<Text>, depth: nat) -> bool
    decreases depth, 1int,
{
    ||| did(w0, w, seq![Step::Ill(Call::ListDir(dir))])
    ||| exists|paths: Seq<Text>| #[trigger]
        did(w0, w, seq![Step::Paths(Call::ListDir(dir), paths)]) && forall|k: int|
            0 <= k < paths.len() ==> did(
                w0,
                w,
                seq![Step::No(Call::IsDir(#[trigger] paths[k]))],
            ) || dir_gathered(w0, w, paths[k], found, depth)
}

/// Is each text of the second row in the first or told by a task file that was
/// read?
pub open spec fn only_told(w0: World, w: World, found: Seq<Text>, all: Seq<Text>) -> bool {
    forall|uuid: Text| #[trigger]
        all.contains(uuid) ==> found.contains(uuid) || told_somewhere(w0, w, uuid)
}

/// Was a task file read that tells the UUID?
pub open spec fn told_somewhere(w0: World, w: World, uuid: Text) -> bool {
    exists|dir: Text, content: Text| #[trigger]
        did(w0, w, task_read(dir, content)) && tells(content, "uuid"@, uuid)
}

proof fn lemma_still_told(w0: World, w: World, after: World, uuid: Text)
    requires
        told_somewhere(w0, w, uuid),
        did(w, after, Seq::empty()),
    ensures
        told_somewhere(w0, after, uuid),
{
    let (dir, content) = choose|dir: Text, content: Text| #[trigger]
        did(w0, w, task_read(dir, content)) && tells(content, "uuid"@, uuid);
    lemma_did_before(w0, w, after, task_read(dir, content));
}

proof fn lemma_kept_by_told(w0: World, w: World, dir: Text, found: Seq<Text>, steps: Seq<Step>)
    requires
        did(w0, w, steps),
    ensures
        did(w0, told_run(w, dir, found).0, steps),
        told_run(w, dir, found).1 matches Ok(all) ==> found.is_prefix_of(all),
{
}

proof fn lemma_kept_by_gather(
    w0: World,
    w: World,
    dir: Text,
    found: Seq<Text>,
    depth: nat,
    steps: Seq<Step>,
)
    requires
        did(w0, w, steps),
    ensures
        gather_within(w, dir, found, depth) matches Some(end) ==> did(w0, end.0, steps)
            && found.is_prefix_of(end.1),
    decreases depth, 1int, 0int,
{
    let (w1, listing) = w.list_dir(dir);
    assert(did(w0, w1, steps));
    if listing is Ok {
        lemma_kept_by_gather_each(w0, w1, listing->Ok_0, 0, found, depth, steps);
    }
}

proof fn lemma_kept_by_gather_each(
    w0: World,
    w: World,
    listing: ListingView,
    i: nat,
    found: Seq<Text>,
    depth: nat,
    steps: Seq<Step>,
)
    requires
        did(w0, w, steps),
    ensures
        gather_each_within(w, listing, i, found, depth) matches Some(end) ==> did(
            w0,
            end.0,
            steps,
        ) && found.is_prefix_of(end.1),
    decreases depth, 0int, listing.paths.len() - i,
{
    if i < listing.paths.len() {
        let path = listing.paths[i as int];
        let (w1, is_dir) = w.is_dir(path);
        assert(did(w0, w1, steps));
        if !is_dir {
            lemma_kept_by_gather_each(w0, w1, listing, i + 1, found, depth, steps);
        } else {
            lemma_kept_by_told(w0, w1, path, found, steps);
            let (w2, told) = told_run(w1, path, found);
            if told is Ok && depth > 0 {
                let more = told->Ok_0;
                let below = (depth - 1) as nat;
                lemma_kept_by_gather(w0, w2, path, more, below, steps);
                if let Some((w3, all, Ok(_))) = gather_within(w2, path, more, below) {
                    lemma_kept_by_gather_each(w0, w3, listing, i + 1, all, depth, steps);
                }
            }
        }
    }
}

proof fn lemma_prefix_contains(found: Seq<Text>, more: Seq<Text>, uuid: Text)
    requires
        found.is_prefix_of(more),
        found.contains(uuid),
    ensures
        more.contains(uuid),
{
    let k = choose|k: int| 0 <= k < found.len() && found[k] == uuid;
    assert(more[k] == uuid);
}

proof fn lemma_still_gathered(
    w0: World,
    w: World,
    after: World,
    dir: Text,
    found: Seq<Text>,
    more: Seq<Text>,
    depth: nat,
)
    requires
        dir_gathered(w0, w, dir, found, depth),
        did(w, after, Seq::empty()),
        found.is_prefix_of(more),
    ensures
        dir_gathered(w0, after, dir, more, depth),
    decreases depth, 0int,
{
    let missing = seq![Step::No(Call::Exists(path_join(dir, "TASK.md"@)))];
    if did(w0, w, missing) {
        lemma_did_before(w0, w, after, missing);
    } else {
        let content = choose|content: Text| #[trigger]
            did(w0, w, task_read(dir, content)) && forall|uuid: Text| #[trigger]
                tells(content, "uuid"@, uuid) ==> found.contains(uuid);
        lemma_did_before(w0, w, after, task_read(dir, content));
        assert forall|uuid: Text| #[trigger] tells(content, "uuid"@, uuid) implies more.contains(
            uuid,
        ) by {
            lemma_prefix_contains(found, more, uuid);
        }
    }
    lemma_still_all_gathered(w0, w, after, dir, found, more, (depth - 1) as nat);
}

proof fn lemma_still_all_gathered(
    w0: World,
    w: World,
    after: World,
    dir: Text,
    found: Seq<Text>,
    more: Seq<Text>,
    depth: nat,
)
    requires
        all_gathered(w0, w, dir, found, depth),
        did(w, after, Seq::empty()),
        found.is_prefix_of(more),
    ensures
        all_gathered(w0, after, dir, more, depth),
    decreases depth, 1int,
{
    if did(w0, w, seq![Step::Ill(Call::ListDir(dir))]) {
        lemma_did_before(w0, w, after, seq![Step::Ill(Call::ListDir(dir))]);
    } else {
        let paths = choose|paths: Seq<Text>| #[trigger]
            did(w0, w, seq![Step::Paths(Call::ListDir(dir), paths)]) && forall|k: int|
                0 <= k < paths.len() ==> did(
                    w0,
                    w,
                    seq![Step::No(Call::IsDir(#[trigger] paths[k]))],
                ) || dir_gathered(w0, w, paths[k], found, depth);
        lemma_did_before(w0, w, after, seq![Step::Paths(Call::ListDir(dir), paths)]);
        assert forall|k: int| 0 <= k < paths.len() implies did(
            w0,
            after,
            seq![Step::No(Call::IsDir(#[trigger] paths[k]))],
        ) || dir_gathered(w0, after, paths[k], more, depth) by {
            let no = seq![Step::No(Call::IsDir(paths[k]))];
            if did(w0, w, no) {
                lemma_did_before(w0, w, after, no);
            } else {
                lemma_still_gathered(w0, w, after, paths[k], found, more, depth);
            }
        }
    }
}

proof fn lemma_told(w0: World, w: World, dir: Text, found: Seq<Text>)
    requires
        did(w0, w, Seq::empty()),
        told_run(w, dir, found).1 is Ok,
    ensures
        ({
            let (after, all) = told_run(w, dir, found);
            let all = all->Ok_0;
            &&& did(w0, after, seq![Step::No(Call::Exists(path_join(dir, "TASK.md"@)))]) || exists|
                content: Text,
            | #[trigger]
                did(w0, after, task_read(dir, content)) && forall|uuid: Text| #[trigger]
                    tells(content, "uuid"@, uuid) ==> all.contains(uuid)
            &&& only_told(w0, after, found, all)
            &&& found.is_prefix_of(all)
            &&& did(w0, after, Seq::empty())
        }),
{
    let (after, all) = told_run(w, dir, found);
    let (w1, there) = w.path_exists(task_md(dir));
    if there {
        let (w2, content) = w1.read(task_md(dir));
        let content = content->Ok_0;
        assert(did(w0, after, task_read(dir, content)));
        let told = value_for(frontmatter_of(content).0, "uuid"@);
        assert forall|uuid: Text| #[trigger] tells(content, "uuid"@, uuid) <==> told == Some(
            uuid,
        ) by {
            frontmatter_value_is_on_its_line(content, "uuid"@, uuid);
        }
        if told is Some {
            let more = found.push(told->0);
            assert(more[found.len() as int] == told->0);
            assert(all->Ok_0.contains(told->0));
            assert(tells(content, "uuid"@, told->0));
            assert forall|uuid: Text| #[trigger] more.contains(uuid) implies found.contains(uuid)
                || told_somewhere(w0, after, uuid) by {
                let k = choose|k: int| 0 <= k < more.len() && more[k] == uuid;
                if k < found.len() {
                    assert(found[k] == uuid);
                }
            }
        }
    }
}

proof fn lemma_gathered(w0: World, w: World, dir: Text, found: Seq<Text>, depth: nat)
    requires
        did(w0, w, Seq::empty()),
    ensures
        gather_within(w, dir, found, depth) matches Some(end) ==> end.2 is Ok ==> all_gathered(
            w0,
            end.0,
            dir,
            end.1,
            depth,
        ) && only_told(w0, end.0, found, end.1),
    decreases depth, 1int, 0int,
{
    let (w1, listing) = w.list_dir(dir);
    assert(did(w0, w1, Seq::empty()));
    let end = gather_within(w, dir, found, depth);
    if listing is Ok {
        let listing = listing->Ok_0;
        let listed = seq![Step::Paths(Call::ListDir(dir), listing.paths)];
        assert(did(w0, w1, listed));
        lemma_kept_by_gather_each(w0, w1, listing, 0, found, depth, listed);
        lemma_each_gathered(w0, w1, listing, 0, found, depth);
        if end is Some && (end->0).2 is Ok {
            let (after, all, _) = end->0;
            assert(did(w0, after, listed));
            assert(all_gathered(w0, after, dir, all, depth));
        }
    } else {
        assert(did(w0, w1, seq![Step::Ill(Call::ListDir(dir))]));
    }
}

proof fn lemma_each_gathered(
    w0: World,
    w: World,
    listing: ListingView,
    i: nat,
    found: Seq<Text>,
    depth: nat,
)
    requires
        did(w0, w, Seq::empty()),
    ensures
        gather_each_within(w, listing, i, found, depth) matches Some(end) ==> end.2 is Ok ==> {
            &&& forall|k: int|
                i <= k < listing.paths.len() ==> did(
                    w0,
                    end.0,
                    seq![Step::No(Call::IsDir(#[trigger] listing.paths[k]))],
                ) || dir_gathered(w0, end.0, listing.paths[k], end.1, depth)
            &&& only_told(w0, end.0, found, end.1)
        },
    decreases depth, 0int, listing.paths.len() - i,
{
    let end = gather_each_within(w, listing, i, found, depth);
    if i < listing.paths.len() && end is Some && (end->0).2 is Ok {
        let path = listing.paths[i as int];
        let (w1, is_dir) = w.is_dir(path);
        assert(did(w0, w1, Seq::empty()));
        let (after, all, _) = end->0;
        if !is_dir {
            let no = seq![Step::No(Call::IsDir(path))];
            assert(did(w0, w1, no));
            lemma_kept_by_gather_each(w0, w1, listing, i + 1, found, depth, no);
            lemma_each_gathered(w0, w1, listing, i + 1, found, depth);
        } else {
            lemma_told(w0, w1, path, found);
            let (w2, told) = told_run(w1, path, found);
            let more = told->Ok_0;
            let below = (depth - 1) as nat;
            lemma_gathered(w0, w2, path, more, below);
            lemma_kept_by_gather(w0, w2, path, more, below, Seq::empty());
            lemma_kept_by_gather(w2, w2, path, more, below, Seq::empty());
            let (w3, inner, _) = gather_within(w2, path, more, below)->0;
            let missing = seq![Step::No(Call::Exists(path_join(path, "TASK.md"@)))];
            if did(w0, w2, missing) {
                lemma_did_before(w0, w2, w3, missing);
            } else {
                let content = choose|content: Text| #[trigger]
                    did(w0, w2, task_read(path, content)) && forall|uuid: Text| #[trigger]
                        tells(content, "uuid"@, uuid) ==> more.contains(uuid);
                lemma_did_before(w0, w2, w3, task_read(path, content));
                assert forall|uuid: Text| #[trigger]
                    tells(content, "uuid"@, uuid) implies inner.contains(uuid) by {
                    lemma_prefix_contains(more, inner, uuid);
                }
            }
            assert(dir_gathered(w0, w3, path, inner, depth));
            lemma_each_gathered(w0, w3, listing, i + 1, inner, depth);
            lemma_kept_by_gather_each(w3, w3, listing, i + 1, inner, depth, Seq::empty());
            lemma_still_gathered(w0, w3, after, path, inner, all, depth);
            assert(only_told(w0, after, found, all)) by {
                assert forall|uuid: Text| #[trigger] all.contains(uuid) implies found.contains(uuid)
                    || told_somewhere(w0, after, uuid) by {
                    if inner.contains(uuid) {
                        if more.contains(uuid) {
                            if !found.contains(uuid) {
                                assert(told_somewhere(w0, w2, uuid));
                                lemma_still_told(w0, w2, w3, uuid);
                                lemma_still_told(w0, w3, after, uuid);
                            }
                        } else {
                            assert(told_somewhere(w0, w3, uuid));
                            lemma_still_told(w0, w3, after, uuid);
                        }
                    }
                }
            }
        }
    }
}

/// Gathering finds the UUID of every task file in the tree that tells one, and
/// nothing else.
pub proof fn gathering_finds_every_uuid(w: World, dir: Text, depth: nat)
    requires
        gather_within(w, dir, Seq::empty(), depth) is Some,
        (gather_within(w, dir, Seq::empty(), depth)->0).2 is Ok,
    ensures
        ({
            let (after, all, _) = gather_within(w, dir, Seq::empty(), depth)->0;
            all_gathered(w, after, dir, all, depth) && forall|uuid: Text| #[trigger]
                all.contains(uuid) ==> told_somewhere(w, after, uuid)
        }),
{
    lemma_gathered(w, w, dir, Seq::empty(), depth);
}

// ─── Checking ────────────────────────────────────────────────────────

/// Reading a column of the board's database.
pub open spec fn board_question(b: BoardView, sql: Text) -> Call {
    Call::SqliteTexts { db: path_join(path_join(b.base, "board"@), "board.db"@), sql }
}

/// A check of a board with tasks tells everything that it should: that the
/// database is not sound, where it tells of anything but `ok`, and each
/// difference between the UUIDs in the database and those in the tree.
pub proof fn check_tells_every_issue(w: World, b: BoardView, depth: nat)
    requires
        check_within(w, b, depth) is Some,
        (check_within(w, b, depth)->0).1 is Ok,
    ensures
        ({
            let (after, issues) = check_within(w, b, depth)->0;
            let issues = issues->Ok_0;
            let db = path_join(path_join(b.base, "board"@), "board.db"@);
            let tasks = path_join(path_join(b.base, "board"@), "tasks"@);
            ||| did(w, after, seq![Step::No(Call::Exists(db))]) && issues
                == seq!["board.db does not exist"@]
            ||| did(w, after, seq![Step::No(Call::Exists(tasks))]) && soundness_told(
                w,
                after,
                b,
                issues,
            )
            ||| soundness_told(w, after, b, issues) && exists|
                in_db: Seq<Text>,
                in_tree: Seq<Text>,
                from: World,
            | #[trigger]
                did(
                    w,
                    after,
                    seq![
                        Step::Items(board_question(b, "SELECT task_uuid FROM tasks"@), in_db),
                    ],
                ) && #[trigger] all_gathered(from, after, tasks, in_tree, depth) && did(
                    w,
                    from,
                    Seq::empty(),
                ) && forall|line: Text| #[trigger]
                    differences(in_db, in_tree).contains(line) ==> issues.contains(line)
        }),
{
    let (after, issues) = check_within(w, b, depth)->0;
    let issues = issues->Ok_0;
    let db = path_join(path_join(b.base, "board"@), "board.db"@);
    let tasks = path_join(path_join(b.base, "board"@), "tasks"@);
    let (w1, there) = w.path_exists(db);
    if there {
        let w2 = crate::board::open_run(w1, b).0;
        let (w3, told) = w2.sqlite_texts(db, "PRAGMA integrity_check"@);
        let first = integrity_issues(told);
        let question = board_question(b, "PRAGMA integrity_check"@);
        assert(did(w, w3, Seq::empty()));
        if told is Ok {
            assert(did(w, w3, seq![Step::Items(question, told->Ok_0)]));
        } else {
            assert(did(w, w3, seq![Step::Ill(question)]));
        }
        let (w4, any) = w3.path_exists(tasks);
        if any {
            let (w5, in_db) = w4.sqlite_texts(db, "SELECT task_uuid FROM tasks"@);
            let in_db = in_db->Ok_0;
            let listed = seq![
                Step::Items(board_question(b, "SELECT task_uuid FROM tasks"@), in_db),
            ];
            assert(did(w, w5, listed));
            assert(did(w, w5, Seq::empty()));
            lemma_gathered(w5, w5, tasks, Seq::empty(), depth);
            lemma_kept_by_gather(w, w5, tasks, Seq::empty(), depth, listed);
            let (w6, in_tree, _) = gather_within(w5, tasks, Seq::empty(), depth)->0;
            if told is Ok {
                lemma_kept_by_gather(
                    w,
                    w5,
                    tasks,
                    Seq::empty(),
                    depth,
                    seq![Step::Items(question, told->Ok_0)],
                );
            } else {
                lemma_kept_by_gather(
                    w,
                    w5,
                    tasks,
                    Seq::empty(),
                    depth,
                    seq![Step::Ill(question)],
                );
            }
            let rest = differences(in_db, in_tree);
            assert(issues == first + rest);
            lemma_soundness(w, after, b, told, first, rest);
            assert forall|line: Text| #[trigger] rest.contains(line) implies issues.contains(
                line,
            ) by {
                let k = choose|k: int| 0 <= k < rest.len() && rest[k] == line;
                assert(issues[first.len() + k] == line);
            }
        } else {
            let (w5, count) = w4.sqlite_texts(db, "SELECT COUNT(*) FROM tasks"@);
            let rest = crate::board_check::orphan_issues(crate::board_check::counted(count));
            lemma_soundness(w, after, b, told, first, rest);
        }
    }
}

/// Did the database tell that it is sound, or do the issues tell that it is not?
pub open spec fn soundness_told(w0: World, w: World, b: BoardView, issues: Seq<Text>) -> bool {
    let question = board_question(b, "PRAGMA integrity_check"@);
    ||| issues.contains("SQLite integrity_check: error running integrity_check"@) && did(
        w0,
        w,
        seq![Step::Ill(question)],
    )
    ||| exists|rows: Seq<Text>| #[trigger]
        did(w0, w, seq![Step::Items(question, rows)]) && if rows.len() == 0 {
            issues.contains("SQLite integrity_check: error running integrity_check"@)
        } else {
            rows[0] == "ok"@ || issues.contains("SQLite integrity_check: "@ + rows[0])
        }
}

proof fn lemma_soundness(
    w0: World,
    w: World,
    b: BoardView,
    told: Outcome<Seq<Text>>,
    first: Seq<Text>,
    rest: Seq<Text>,
)
    requires
        first == integrity_issues(told),
        told is Ok ==> did(
            w0,
            w,
            seq![Step::Items(board_question(b, "PRAGMA integrity_check"@), told->Ok_0)],
        ),
        told is Err ==> did(
            w0,
            w,
            seq![Step::Ill(board_question(b, "PRAGMA integrity_check"@))],
        ),
    ensures
        soundness_told(w0, w, b, first + rest),
{
    reveal_strlit("SQLite integrity_check: ");
    reveal_strlit("error running integrity_check");
    reveal_strlit("SQLite integrity_check: error running integrity_check");
    reveal_strlit("ok");
    assert("SQLite integrity_check: "@ + "error running integrity_check"@
        =~= "SQLite integrity_check: error running integrity_check"@);
    assert("error running integrity_check"@.len() != "ok"@.len());
    if first.len() > 0 {
        assert((first + rest)[0] == first[0]);
    }
}

// ─── Making a board ──────────────────────────────────────────────────

/// The branch of the board was created on an empty tree, and checked out unless
/// it was.
pub open spec fn board_branch(base: Text, uuid: Text, tree: Text, commit: Text) -> Seq<Step> {
    let repo = path_join(base, "repo"@);
    seq![
        Step::Told(
            bare_call(seq!["hash-object"@, "-t"@, "tree"@, "/dev/null"@], repo, repo),
            tree,
        ),
    ].push(
        Step::Told(
            bare_call(seq!["commit-tree"@, tree, "-m"@, "init board "@ + uuid], repo, repo),
            commit,
        ),
    ).push(
        Step::Well(
            bare_call(seq!["update-ref"@, "refs/heads/object/"@ + uuid, commit], repo, repo),
        ),
    )
}

/// Making a board creates its branch on an empty tree, checks it out unless it is
/// checked out, makes its directory of tasks and its database, and commits that.
pub proof fn board_is_made(w: World, base: Text, uuid: Text)
    requires
        create_run(w, base, uuid).1 is Ok,
    ensures
        ({
            let (after, board) = create_run(w, base, uuid);
            let worktree = path_join(base, "board"@);
            &&& board->Ok_0 == (BoardView { base, uuid })
            &&& exists|tree: Text, commit: Text, made: World, last: World| #[trigger]
                board_ready(w, made, base, uuid, tree, commit) && #[trigger] committed(
                    made,
                    last,
                    worktree,
                    "init board "@ + uuid,
                ) && did(last, after, Seq::empty())
        }),
{
    broadcast use group_kept;

    let b = BoardView { base, uuid };
    let (after, board) = create_run(w, base, uuid);
    let repo = path_join(base, "repo"@);
    let worktree = path_join(base, "board"@);
    let (t, tree) = w.git_in_bare(
        seq!["hash-object"@, "-t"@, "tree"@, "/dev/null"@],
        repo,
        repo,
    );
    let (c, commit) = t.git_in_bare(
        seq!["commit-tree"@, tree->Ok_0, "-m"@, "init board "@ + uuid],
        repo,
        repo,
    );
    let w1 = create_branch_run(w, b).0;
    let branch = board_branch(base, uuid, tree->Ok_0, commit->Ok_0);
    assert(did(w, w1, branch));
    let w2 = worktree_run(w1, b).0;
    let w3 = w2.create_dir_all(b.tasks()).0;
    let w4 = w3.write(path_join(b.tasks(), ".gitkeep"@), Seq::empty()).0;
    let w5 = crate::board::open_run(w4, b).0;
    assert(board_ready(w, w5, base, uuid, tree->Ok_0, commit->Ok_0));
    lemma_committed(w5, w5, worktree, "init board "@ + uuid);
    let w6 = furnish_run(w2, b).0;
    assert(did(w6, w6, Seq::empty()));
    assert(committed(w5, w6, worktree, "init board "@ + uuid));
    assert(did(w6, after, Seq::empty()));
}

/// Is everything of a new board there but its first commit?
pub open spec fn board_ready(
    w0: World,
    w: World,
    base: Text,
    uuid: Text,
    tree: Text,
    commit: Text,
) -> bool {
    let repo = path_join(base, "repo"@);
    let worktree = path_join(base, "board"@);
    let branch = board_branch(base, uuid, tree, commit);
    let kept = Step::Wrote(path_join(path_join(worktree, "tasks"@), ".gitkeep"@), Seq::empty());
    let opened = Step::Well(
        Call::SqliteExecute {
            db: path_join(worktree, "board.db"@),
            sql: crate::board::BOARD_SCHEMA@,
            params: Seq::empty(),
        },
    );
    ||| did(w0, w, branch.push(Step::Yes(Call::Exists(worktree))).push(kept).push(opened))
    ||| did(
        w0,
        w,
        branch.push(Step::No(Call::Exists(worktree))).push(
            Step::Well(
                bare_call(
                    seq!["worktree"@, "add"@, worktree, "object/"@ + uuid],
                    repo,
                    repo,
                ),
            ),
        ).push(kept).push(opened),
    )
}

// ─── Numbers and time spans ──────────────────────────────────────────

proof fn lemma_digits_push(s: Text, acc: int, d: char, max: int)
    requires
        acc >= 0,
        is_digit(d),
        digits_read(s, acc, false, 0, max) is Ok,
        digits_read(s, acc, false, 0, max)->Ok_0 * 10 + digit_value(d) <= max,
    ensures
        digits_read(s.push(d), acc, false, 0, max) == Ok::<int, Text>(
            digits_read(s, acc, false, 0, max)->Ok_0 * 10 + digit_value(d),
        ),
    decreases s.len(),
{
    let all = s.push(d);
    if s.len() == 0 {
        assert(all.skip(1) =~= Seq::<char>::empty());
        assert(digits_read(all.skip(1), acc * 10 + digit_value(d), false, 0, max) == Ok::<
            int,
            Text,
        >(acc * 10 + digit_value(d)));
    } else {
        assert(all.skip(1) =~= s.skip(1).push(d));
        let next = acc * 10 + digit_value(s[0]);
        lemma_digits_push(s.skip(1), next, d, max);
    }
}

proof fn lemma_decimal(n: nat, max: int)
    requires
        n <= max,
    ensures
        digits_read(decimal(n), 0, false, 0, max) == Ok::<int, Text>(n as int),
        decimal(n).len() > 0,
        forall|i: int| 0 <= i < decimal(n).len() ==> is_digit(#[trigger] decimal(n)[i]),
    decreases n,
{
    if n < 10 {
        let s = decimal(n);
        assert(s.skip(1) =~= Seq::<char>::empty());
        assert(digit_value(s[0]) == n);
        assert(digits_read(s.skip(1), n as int, false, 0, max) == Ok::<int, Text>(n as int));
    } else {
        let d = digit_char((n % 10) as int);
        lemma_decimal(n / 10, max);
        assert(digit_value(d) == n % 10);
        lemma_digits_push(decimal(n / 10), 0, d, max);
    }
}

/// A number is read back from its decimal form.
pub proof fn decimal_reads_back(n: nat, max: int)
    requires
        n <= max,
    ensures
        integer_read(decimal(n), 0, max) == Ok::<int, Text>(n as int),
{
    lemma_decimal(n, max);
    assert(is_digit(decimal(n)[0]));
}

/// The letters that stand for a unit of time.
pub open spec fn unit_letters(unit: Unit) -> Text {
    match unit {
        Unit::Second => seq!['s'],
        Unit::Minute => seq!['m'],
        Unit::Hour => seq!['h'],
        Unit::Day => seq!['d'],
        Unit::Week => seq!['w'],
        Unit::Month => seq!['m', 'o'],
        Unit::Year => seq!['y'],
    }
}

/// A number followed by the letters of a unit is that many of that unit.
pub proof fn horizon_is_its_amount_and_unit(n: nat, unit: Unit)
    requires
        n <= usize::MAX,
    ensures
        horizon_of(decimal(n) + unit_letters(unit)) == Some((n as int, unit)),
{
    reveal_strlit("0");
    reveal_strlit("s");
    reveal_strlit("m");
    reveal_strlit("h");
    reveal_strlit("d");
    reveal_strlit("w");
    reveal_strlit("y");
    reveal_strlit("mo");
    lemma_decimal(n, usize::MAX as int);
    decimal_reads_back(n, usize::MAX as int);
    let digits = decimal(n);
    let letters = unit_letters(unit);
    let text = digits + letters;
    assert(text.len() > 1);
    assert(text != "0"@);
    assert(is_digit(digits[digits.len() - 1]));
    let last = text[text.len() - 1];
    assert(last == letters[letters.len() - 1]);
    assert forall|part: Text| part.len() > 0 && part.last() != last implies !(#[trigger] part.is_suffix_of(
        text,
    )) by {
        if part.is_suffix_of(text) {
            assert(text.subrange((text.len() - part.len()) as int, text.len() as int).last()
                == text.last());
        }
    }
    assert("s"@.last() == 's' && "m"@.last() == 'm' && "h"@.last() == 'h' && "d"@.last() == 'd'
        && "w"@.last() == 'w' && "y"@.last() == 'y' && "mo"@.last() == 'o');
    assert(text.take(text.len() - letters.len()) =~= digits);
    assert(letters.is_suffix_of(text)) by {
        assert(text.subrange((text.len() - letters.len()) as int, text.len() as int) =~= letters);
    }
    assert("s"@ =~= seq!['s']);
    assert("m"@ =~= seq!['m']);
    assert("h"@ =~= seq!['h']);
    assert("d"@ =~= seq!['d']);
    assert("w"@ =~= seq!['w']);
    assert("y"@ =~= seq!['y']);
    assert("mo"@ =~= seq!['m', 'o']);
    assert(without_suffix(text, letters) == Some(digits));
}

} // verus!
