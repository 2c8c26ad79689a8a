//! What the board shows of the tasks on disk.

use vstd::prelude::*;

use crate::board::{
    dirs_run, ensure_within, fill_within, insert_from_run, rebuild_within, row_params,
    scan_each_within, scan_within, task_md, task_told, value_or, BoardView, FoundView,
};
use crate::frontmatter::{frontmatter_of, is_fence, next_fence, pair_in, pairs_in, value_for};
use crate::order::{sorted_pairs, sorting_sorts};
use crate::paths::{file_name_of, path_join};
use crate::text::{first_index, lemma_first_index, lemma_first_index_is, lines_of, trimmed, Text};
use crate::trace::{did, group_did, lemma_did_before, Step};
use crate::world::{Call, SqlView, World};

verus! {

broadcast use group_did;

// ─── The frontmatter ─────────────────────────────────────────────────

/// Is the line a key, a colon and a value, up to the space around the two? The
/// first colon counts.
pub open spec fn line_tells(line: Text, key: Text, value: Text) -> bool {
    exists|at: int|
        0 <= at < line.len() && #[trigger] line[at] == ':' && (forall|k: int|
            0 <= k < at ==> line[k] != ':') && trimmed(line.take(at)) == key && trimmed(
            line.skip(at + 1),
        ) == value
}

/// Is the line a fence: three dashes, up to the space around them?
pub open spec fn is_dashes(line: Text) -> bool {
    trimmed(line) == "---"@
}

/// Do the lines begin with a fence that is closed at the line `end`?
pub open spec fn is_fenced(all: Seq<Text>, end: int) -> bool {
    &&& 1 <= end < all.len()
    &&& is_dashes(all[0])
    &&& is_dashes(all[end])
    &&& forall|k: int| 1 <= k < end ==> !is_dashes(#[trigger] all[k])
}

/// Is the value told by the line `i` of the frontmatter, the first that tells of
/// the key?
pub open spec fn told_at(all: Seq<Text>, end: int, i: int, key: Text, value: Text) -> bool {
    &&& is_fenced(all, end)
    &&& 1 <= i < end
    &&& line_tells(all[i], key, value)
    &&& forall|k: int, other: Text| 1 <= k < i ==> !(#[trigger] line_tells(all[k], key, other))
}

/// Does the frontmatter of the text tell this value for the key?
pub open spec fn tells(content: Text, key: Text, value: Text) -> bool {
    exists|end: int, i: int| #[trigger] told_at(lines_of(content), end, i, key, value)
}

proof fn lemma_pair(line: Text, key: Text, value: Text)
    ensures
        pair_in(line) == Some((key, value)) <==> line_tells(line, key, value),
{
    lemma_first_index(line, ':');
    let at = first_index(line, ':');
    if line_tells(line, key, value) {
        let k = choose|at: int|
            0 <= at < line.len() && #[trigger] line[at] == ':' && (forall|k: int|
                0 <= k < at ==> line[k] != ':') && trimmed(line.take(at)) == key && trimmed(
                line.skip(at + 1),
            ) == value;
        lemma_first_index_is(line, ':', k);
    }
    if pair_in(line) == Some((key, value)) {
        assert(line[at] == ':');
    }
}

proof fn lemma_fence(all: Seq<Text>, i: int, end: int)
    requires
        0 <= i <= end <= all.len(),
        end < all.len() ==> is_dashes(all[end]),
        forall|k: int| i <= k < end ==> !is_dashes(#[trigger] all[k]),
    ensures
        next_fence(all, i) == end,
    decreases end - i,
{
    if i < end {
        assert(!is_dashes(all[i]));
        lemma_fence(all, i + 1, end);
    }
}

proof fn lemma_next_fence(all: Seq<Text>, i: int)
    requires
        0 <= i <= all.len(),
    ensures
        i <= next_fence(all, i) <= all.len(),
        next_fence(all, i) < all.len() ==> is_dashes(all[next_fence(all, i)]),
        forall|k: int| i <= k < next_fence(all, i) ==> !is_dashes(#[trigger] all[k]),
    decreases all.len() - i,
{
    if i < all.len() && !is_fence(all[i]) {
        lemma_next_fence(all, i + 1);
    }
}

proof fn lemma_value_push(pairs: Seq<(Text, Text)>, pair: (Text, Text), key: Text)
    ensures
        value_for(pairs.push(pair), key) == (match value_for(pairs, key) {
            Some(value) => Some(value),
            None => if pair.0 == key {
                Some(pair.1)
            } else {
                None
            },
        }),
    decreases pairs.len(),
{
    let all = pairs.push(pair);
    if pairs.len() == 0 {
        assert(all.skip(1) =~= Seq::<(Text, Text)>::empty());
        reveal_with_fuel(value_for, 2);
    } else {
        assert(all.skip(1) =~= pairs.skip(1).push(pair));
        lemma_value_push(pairs.skip(1), pair, key);
    }
}

/// Is the value told by the first of the lines that tells of the key?
pub open spec fn first_told(all: Seq<Text>, i: int, key: Text, value: Text) -> bool {
    &&& 0 <= i < all.len()
    &&& line_tells(all[i], key, value)
    &&& forall|k: int, other: Text| 0 <= k < i ==> !(#[trigger] line_tells(all[k], key, other))
}

proof fn lemma_first_told(all: Seq<Text>, i: int, key: Text, value: Text)
    requires
        first_told(all, i, key, value),
    ensures
        value_for(pairs_in(all), key) == Some(value),
    decreases all.len(),
{
    let front = all.drop_last();
    assert forall|k: int, other: Text| 0 <= k < front.len() && #[trigger] line_tells(
        front[k],
        key,
        other,
    ) implies line_tells(all[k], key, other) by {}
    if i < front.len() {
        assert(front[i] == all[i]);
        assert forall|k: int, other: Text| 0 <= k < i implies !(#[trigger] line_tells(
            front[k],
            key,
            other,
        )) by {
            assert(front[k] == all[k]);
            assert(!line_tells(all[k], key, other));
        }
        lemma_first_told(front, i, key, value);
        if pair_in(all.last()) is Some {
            lemma_value_push(pairs_in(front), pair_in(all.last())->0, key);
        }
    } else {
        lemma_pair(all.last(), key, value);
        lemma_none_told(front, key);
        lemma_value_push(pairs_in(front), (key, value), key);
    }
}

proof fn lemma_none_told(all: Seq<Text>, key: Text)
    requires
        forall|k: int, other: Text|
            0 <= k < all.len() ==> !(#[trigger] line_tells(all[k], key, other)),
    ensures
        value_for(pairs_in(all), key) is None,
    decreases all.len(),
{
    if all.len() > 0 {
        let front = all.drop_last();
        assert forall|k: int, other: Text| 0 <= k < front.len() implies !(#[trigger] line_tells(
            front[k],
            key,
            other,
        )) by {
            assert(front[k] == all[k]);
            assert(!line_tells(all[k], key, other));
        }
        lemma_none_told(front, key);
        if pair_in(all.last()) is Some {
            let (k, v) = pair_in(all.last())->0;
            lemma_pair(all.last(), k, v);
            assert(!line_tells(all[all.len() - 1], key, v));
            lemma_value_push(pairs_in(front), (k, v), key);
        }
    }
}

proof fn lemma_told_somewhere(all: Seq<Text>, key: Text) -> (i: int)
    requires
        value_for(pairs_in(all), key) is Some,
    ensures
        first_told(all, i, key, value_for(pairs_in(all), key)->0),
    decreases all.len(),
{
    let front = all.drop_last();
    if all.len() == 0 {
        reveal_with_fuel(value_for, 1);
        0
    } else if value_for(pairs_in(front), key) is Some {
        let i = lemma_told_somewhere(front, key);
        if pair_in(all.last()) is Some {
            lemma_value_push(pairs_in(front), pair_in(all.last())->0, key);
        }
        assert(front[i] == all[i]);
        assert forall|k: int, other: Text| 0 <= k < i implies !(#[trigger] line_tells(
            all[k],
            key,
            other,
        )) by {
            assert(front[k] == all[k]);
            assert(!line_tells(front[k], key, other));
        }
        i
    } else {
        let (k, v) = pair_in(all.last())->0;
        lemma_value_push(pairs_in(front), (k, v), key);
        lemma_pair(all.last(), k, v);
        assert forall|j: int, other: Text| 0 <= j < front.len() implies !(#[trigger] line_tells(
            all[j],
            key,
            other,
        )) by {
            if line_tells(all[j], key, other) {
                lemma_some_told(front, j, key, other);
            }
        }
        all.len() - 1
    }
}

proof fn lemma_some_told(all: Seq<Text>, i: int, key: Text, value: Text)
    requires
        0 <= i < all.len(),
        line_tells(all[i], key, value),
    ensures
        value_for(pairs_in(all), key) is Some,
    decreases all.len(),
{
    let front = all.drop_last();
    if i < front.len() {
        assert(front[i] == all[i]);
        lemma_some_told(front, i, key, value);
        if pair_in(all.last()) is Some {
            lemma_value_push(pairs_in(front), pair_in(all.last())->0, key);
        }
    } else {
        lemma_pair(all.last(), key, value);
        lemma_value_push(pairs_in(front), (key, value), key);
    }
}

/// The frontmatter of a text has a value for a key exactly where a line between
/// the two fences tells it, and it is the one of the first such line.
pub proof fn frontmatter_value_is_on_its_line(content: Text, key: Text, value: Text)
    ensures
        value_for(frontmatter_of(content).0, key) == Some(value) <==> tells(content, key, value),
{
    let all = lines_of(content);
    if tells(content, key, value) {
        let (end, i) = choose|end: int, i: int| #[trigger] told_at(all, end, i, key, value);
        lemma_fence(all, 1, end);
        let inner = all.subrange(1, end);
        assert(inner[i - 1] == all[i]);
        assert forall|k: int, other: Text| 0 <= k < i - 1 implies !(#[trigger] line_tells(
            inner[k],
            key,
            other,
        )) by {
            assert(inner[k] == all[k + 1]);
            assert(!line_tells(all[k + 1], key, other));
        }
        lemma_first_told(inner, i - 1, key, value);
    }
    if value_for(frontmatter_of(content).0, key) == Some(value) {
        if all.len() > 0 {
            lemma_next_fence(all, 1);
        }
        let end = next_fence(all, 1);
        let inner = all.subrange(1, end);
        let i = lemma_told_somewhere(inner, key);
        assert(inner[i] == all[i + 1]);
        assert forall|k: int, other: Text| 1 <= k < i + 1 implies !(#[trigger] line_tells(
            all[k],
            key,
            other,
        )) by {
            assert(inner[k - 1] == all[k]);
            assert(!line_tells(inner[k - 1], key, other));
        }
        assert(told_at(all, end, i + 1, key, value));
    }
}

/// A line made of a key, a colon, a space and a value tells that value.
pub proof fn plain_line_tells(key: Text, value: Text)
    requires
        trimmed(key) == key,
        trimmed(value) == value,
        forall|k: int| 0 <= k < key.len() ==> key[k] != ':',
    ensures
        line_tells(key + seq![':', ' '] + value, key, value),
{
    let line = key + seq![':', ' '] + value;
    let at = key.len() as int;
    assert(line[at] == ':');
    assert(line.take(at) =~= key);
    let rest = line.skip(at + 1);
    assert(rest =~= seq![' '] + value);
    assert(rest.skip(1) =~= value);
    assert(crate::text::trimmed_start(rest) == crate::text::trimmed_start(value));
}

/// Does the field of a task hold what its text tells: the value told for the key,
/// and none only where the frontmatter tells none?
pub open spec fn field_told(content: Text, key: Text, field: Option<Text>) -> bool {
    &&& forall|value: Text| #[trigger] tells(content, key, value) ==> field == Some(value)
    &&& field is Some ==> tells(content, key, field->0)
}

/// The same for a field that has a default.
pub open spec fn field_told_or(content: Text, key: Text, field: Text, missing: Text) -> bool {
    &&& forall|value: Text| #[trigger] tells(content, key, value) ==> field == value
    &&& tells(content, key, field) || field == missing
}

/// A task has the fields that the frontmatter of its text tells: the UUID, the
/// kind, the status, the description, the deadline and the importance. A kind
/// that is not told is `todo`, a status that is not told is `active`, and
/// anything else that is not told is missing.
pub proof fn task_is_what_its_text_tells(content: Text, name: Text, parent: Option<nat>)
    ensures
        ({
            let task = task_told(content, name, parent);
            &&& task.name == name
            &&& task.parent == parent
            &&& field_told(content, "uuid"@, task.uuid)
            &&& field_told_or(content, "kind"@, task.kind, "todo"@)
            &&& field_told_or(content, "status"@, task.status, "active"@)
            &&& field_told(content, "description"@, task.description)
            &&& field_told(content, "deadline"@, task.deadline)
            &&& field_told(content, "importance"@, task.importance)
        }),
{
    let pairs = frontmatter_of(content).0;
    assert forall|key: Text, value: Text| #[trigger] tells(content, key, value)
        <==> value_for(pairs, key) == Some(value) by {
        frontmatter_value_is_on_its_line(content, key, value);
    }
    assert forall|key: Text| value_for(pairs, key) is Some implies #[trigger] tells(
        content,
        key,
        value_for(pairs, key)->0,
    ) by {
        frontmatter_value_is_on_its_line(content, key, value_for(pairs, key)->0);
    }
    assert(tells(content, "kind"@, value_for(pairs, "kind"@)->0) <==> value_for(pairs, "kind"@)
        is Some);
    assert(tells(content, "status"@, value_for(pairs, "status"@)->0) <==> value_for(
        pairs,
        "status"@,
    ) is Some);
    assert(tells(content, "uuid"@, value_for(pairs, "uuid"@)->0) <==> value_for(pairs, "uuid"@)
        is Some);
    assert(tells(content, "description"@, value_for(pairs, "description"@)->0) <==> value_for(
        pairs,
        "description"@,
    ) is Some);
    assert(tells(content, "deadline"@, value_for(pairs, "deadline"@)->0) <==> value_for(
        pairs,
        "deadline"@,
    ) is Some);
    assert(tells(content, "importance"@, value_for(pairs, "importance"@)->0) <==> value_for(
        pairs,
        "importance"@,
    ) is Some);
}

// ─── Scanning ────────────────────────────────────────────────────────

proof fn lemma_kept_by_dirs(
    w0: World,
    w: World,
    paths: Seq<Text>,
    i: nat,
    dirs: Seq<(Text, Text)>,
    steps: Seq<Step>,
)
    requires
        did(w0, w, steps),
    ensures
        did(w0, dirs_run(w, paths, i, dirs).0, steps),
    decreases paths.len() - i,
{
    if i < paths.len() {
        let path = paths[i as int];
        let (w1, is_dir) = w.is_dir(path);
        assert(did(w0, w1, steps));
        let more = if is_dir {
            dirs.push((path, value_or(file_name_of(path), Seq::empty())))
        } else {
            dirs
        };
        lemma_kept_by_dirs(w0, w1, paths, i + 1, more, steps);
    }
}

/// What was done stays done, and the tasks that were found stay found.
proof fn lemma_kept_by_scan(
    w0: World,
    w: World,
    dir: Text,
    parent: Option<nat>,
    found: Seq<FoundView>,
    depth: nat,
    steps: Seq<Step>,
)
    requires
        did(w0, w, steps),
    ensures
        scan_within(w, dir, parent, found, depth) matches Some(end) ==> did(w0, end.0, steps)
            && found.is_prefix_of(end.1),
    decreases depth, 1int, 0int,
{
    let (w1, listing) = w.list_dir(dir);
    assert(did(w0, w1, steps));
    if listing is Ok {
        lemma_kept_by_dirs(w0, w1, listing->Ok_0.paths, 0, Seq::empty(), steps);
        let (w2, dirs) = dirs_run(w1, listing->Ok_0.paths, 0, Seq::empty());
        lemma_kept_by_scan_each(w0, w2, sorted_pairs(dirs), 0, parent, found, depth, steps);
    }
}

proof fn lemma_kept_by_scan_each(
    w0: World,
    w: World,
    dirs: Seq<(Text, Text)>,
    i: nat,
    parent: Option<nat>,
    found: Seq<FoundView>,
    depth: nat,
    steps: Seq<Step>,
)
    requires
        did(w0, w, steps),
    ensures
        scan_each_within(w, dirs, i, parent, found, depth) matches Some(end) ==> did(
            w0,
            end.0,
            steps,
        ) && found.is_prefix_of(end.1),
    decreases depth, 0int, dirs.len() - i,
{
    if i < dirs.len() {
        let (dir, name) = dirs[i as int];
        let (w1, there) = w.path_exists(task_md(dir));
        assert(did(w0, w1, steps));
        if !there {
            lemma_kept_by_scan_each(w0, w1, dirs, i + 1, parent, found, depth, steps);
        } else {
            let (w2, content) = w1.read(task_md(dir));
            assert(did(w0, w2, steps));
            if content is Ok && depth > 0 {
                let more = found.push(task_told(content->Ok_0, name, parent));
                let below = (depth - 1) as nat;
                lemma_kept_by_scan(w0, w2, dir, Some(found.len()), more, below, steps);
                assert(found.is_prefix_of(more));
                if let Some((w3, all, Ok(_))) = scan_within(w2, dir, Some(found.len()), more, below) {
                    lemma_kept_by_scan_each(w0, w3, dirs, i + 1, parent, all, depth, steps);
                }
            }
        }
    }
}

/// The task file of the directory was found and read.
pub open spec fn task_read(dir: Text, content: Text) -> Seq<Step> {
    seq![Step::Yes(Call::Exists(path_join(dir, "TASK.md"@)))].push(
        Step::Told(Call::Read(path_join(dir, "TASK.md"@)), content),
    )
}

/// Is the task of the directory, where it has a task file, among those found, as
/// its text tells it, and are those of the directories in it?
pub open spec fn dir_scanned(
    w0: World,
    w: World,
    dir: Text,
    name: Text,
    parent: Option<nat>,
    found: Seq<FoundView>,
    depth: nat,
) -> bool
    decreases depth, 0int,
{
    ||| did(w0, w, seq![Step::No(Call::Exists(path_join(dir, "TASK.md"@)))])
    ||| depth > 0 && exists|content: Text, k: nat| #[trigger]
        did(w0, w, task_read(dir, content)) && k < found.len() && #[trigger] found[k as int]
            == task_told(content, name, parent) && all_scanned(
            w0,
            w,
            dir,
            Some(k),
            found,
            (depth - 1) as nat,
        )
}

/// Was every directory in `dir` scanned, as far as `dir` can be listed?
pub open spec fn all_scanned(
    w0: World,
    w: World,
    dir: Text,
    parent: Option<nat>,
    found: Seq<FoundView>,
    depth: nat,
) -> bool
    decreases depth, 1int,
{
    ||| did(w0, w, seq![Step::Ill(Call::ListDir(dir))])
    ||| exists|paths: Seq<Text>| #[trigger]
        dir_listed(w0, w, dir, paths) && forall|k: int|
            0 <= k < paths.len() ==> did(
                w0,
                w,
                seq![Step::No(Call::IsDir(#[trigger] paths[k]))],
            ) || dir_scanned(
                w0,
                w,
                paths[k],
                value_or(file_name_of(paths[k]), Seq::empty()),
                parent,
                found,
                depth,
            )
}

/// Was the directory listed, and do these paths lie in it?
pub open spec fn dir_listed(w0: World, w: World, dir: Text, paths: Seq<Text>) -> bool {
    did(w0, w, seq![Step::Paths(Call::ListDir(dir), paths)])
}

proof fn lemma_still_scanned(
    w0: World,
    w: World,
    after: World,
    dir: Text,
    name: Text,
    parent: Option<nat>,
    found: Seq<FoundView>,
    more: Seq<FoundView>,
    depth: nat,
)
    requires
        dir_scanned(w0, w, dir, name, parent, found, depth),
        did(w, after, Seq::empty()),
        found.is_prefix_of(more),
    ensures
        dir_scanned(w0, after, dir, name, parent, more, depth),
    decreases depth, 0int,
{
    let missing = seq![Step::No(Call::Exists(path_join(dir, "TASK.md"@)))];
    if did(w0, w, missing) {
        lemma_did_before(w0, w, after, missing);
    } else {
        let (content, k) = choose|content: Text, k: nat| #[trigger]
            did(w0, w, task_read(dir, content)) && k < found.len() && #[trigger] found[k as int]
                == task_told(content, name, parent) && all_scanned(
                w0,
                w,
                dir,
                Some(k),
                found,
                (depth - 1) as nat,
            );
        lemma_did_before(w0, w, after, task_read(dir, content));
        assert(more[k as int] == found[k as int]);
        lemma_still_all_scanned(
            w0,
            w,
            after,
            dir,
            Some(k),
            found,
            more,
            (depth - 1) as nat,
        );
    }
}

proof fn lemma_still_all_scanned(
    w0: World,
    w: World,
    after: World,
    dir: Text,
    parent: Option<nat>,
    found: Seq<FoundView>,
    more: Seq<FoundView>,
    depth: nat,
)
    requires
        all_scanned(w0, w, dir, parent, found, depth),
        did(w, after, Seq::empty()),
        found.is_prefix_of(more),
    ensures
        all_scanned(w0, after, dir, parent, more, depth),
    decreases depth, 1int,
{
    if did(w0, w, seq![Step::Ill(Call::ListDir(dir))]) {
        lemma_did_before(w0, w, after, seq![Step::Ill(Call::ListDir(dir))]);
    } else {
        let paths = choose|paths: Seq<Text>| #[trigger]
            dir_listed(w0, w, dir, paths) && forall|k: int|
                0 <= k < paths.len() ==> did(
                    w0,
                    w,
                    seq![Step::No(Call::IsDir(#[trigger] paths[k]))],
                ) || dir_scanned(
                    w0,
                    w,
                    paths[k],
                    value_or(file_name_of(paths[k]), Seq::empty()),
                    parent,
                    found,
                    depth,
                );
        lemma_did_before(w0, w, after, seq![Step::Paths(Call::ListDir(dir), paths)]);
        assert(dir_listed(w0, after, dir, paths));
        assert forall|k: int| 0 <= k < paths.len() implies did(
            w0,
            after,
            seq![Step::No(Call::IsDir(#[trigger] paths[k]))],
        ) || dir_scanned(
            w0,
            after,
            paths[k],
            value_or(file_name_of(paths[k]), Seq::empty()),
            parent,
            more,
            depth,
        ) by {
            let no = seq![Step::No(Call::IsDir(paths[k]))];
            if did(w0, w, no) {
                lemma_did_before(w0, w, after, no);
            } else {
                lemma_still_scanned(
                    w0,
                    w,
                    after,
                    paths[k],
                    value_or(file_name_of(paths[k]), Seq::empty()),
                    parent,
                    found,
                    more,
                    depth,
                );
            }
        }
    }
}

proof fn lemma_dirs(
    w0: World,
    w: World,
    paths: Seq<Text>,
    i: nat,
    dirs: Seq<(Text, Text)>,
)
    requires
        did(w0, w, Seq::empty()),
    ensures
        ({
            let (after, all) = dirs_run(w, paths, i, dirs);
            &&& dirs.is_prefix_of(all)
            &&& forall|k: int|
                i <= k < paths.len() ==> did(
                    w0,
                    after,
                    seq![Step::No(Call::IsDir(#[trigger] paths[k]))],
                ) || all.contains((paths[k], value_or(file_name_of(paths[k]), Seq::empty())))
        }),
    decreases paths.len() - i,
{
    if i < paths.len() {
        let path = paths[i as int];
        let (w1, is_dir) = w.is_dir(path);
        assert(did(w0, w1, Seq::empty()));
        let pair = (path, value_or(file_name_of(path), Seq::empty()));
        let more = if is_dir {
            dirs.push(pair)
        } else {
            dirs
        };
        lemma_dirs(w0, w1, paths, i + 1, more);
        let (after, all) = dirs_run(w, paths, i, dirs);
        assert((after, all) == dirs_run(w1, paths, i + 1, more));
        if is_dir {
            assert(all[dirs.len() as int] == more[dirs.len() as int]);
            assert(all.contains(pair));
        } else {
            assert(did(w0, w1, seq![Step::No(Call::IsDir(path))]));
            lemma_kept_by_dirs(w0, w1, paths, i + 1, more, seq![Step::No(Call::IsDir(path))]);
        }
    }
}

proof fn lemma_scanned(
    w0: World,
    w: World,
    dir: Text,
    parent: Option<nat>,
    found: Seq<FoundView>,
    depth: nat,
)
    requires
        did(w0, w, Seq::empty()),
    ensures
        scan_within(w, dir, parent, found, depth) matches Some(end) ==> end.2 is Ok ==> all_scanned(
            w0,
            end.0,
            dir,
            parent,
            end.1,
            depth,
        ),
    decreases depth, 1int, 0int,
{
    let (w1, listing) = w.list_dir(dir);
    assert(did(w0, w1, Seq::empty()));
    let end = scan_within(w, dir, parent, found, depth);
    if listing is Ok {
        let paths = listing->Ok_0.paths;
        let listed = seq![Step::Paths(Call::ListDir(dir), paths)];
        assert(did(w0, w1, listed));
        lemma_dirs(w0, w1, paths, 0, Seq::empty());
        lemma_kept_by_dirs(w0, w1, paths, 0, Seq::empty(), listed);
        lemma_kept_by_dirs(w0, w1, paths, 0, Seq::empty(), Seq::empty());
        let (w2, dirs) = dirs_run(w1, paths, 0, Seq::empty());
        let sorted = sorted_pairs(dirs);
        lemma_kept_by_scan_each(w0, w2, sorted, 0, parent, found, depth, listed);
        lemma_kept_by_scan_each(w2, w2, sorted, 0, parent, found, depth, Seq::empty());
        lemma_each_scanned(w0, w2, sorted, 0, parent, found, depth);
        if listing->Ok_0.broken is None && end is Some && (end->0).2 is Ok {
            let (after, all, _) = end->0;
            assert(end == scan_each_within(w2, sorted, 0, parent, found, depth));
            assert(dir_listed(w0, after, dir, paths));
            assert forall|k: int| 0 <= k < paths.len() implies did(
                w0,
                after,
                seq![Step::No(Call::IsDir(#[trigger] paths[k]))],
            ) || dir_scanned(
                w0,
                after,
                paths[k],
                value_or(file_name_of(paths[k]), Seq::empty()),
                parent,
                all,
                depth,
            ) by {
                let no = seq![Step::No(Call::IsDir(paths[k]))];
                if did(w0, w2, no) {
                    lemma_did_before(w0, w2, after, no);
                } else {
                    let pair = (paths[k], value_or(file_name_of(paths[k]), Seq::empty()));
                    assert(dirs.contains(pair));
                    lemma_same_pairs(dirs, pair);
                    let j = choose|j: int| 0 <= j < sorted.len() && sorted[j] == pair;
                    assert(dir_scanned(w0, after, sorted[j].0, sorted[j].1, parent, all, depth));
                }
            }
            assert(all_scanned(w0, after, dir, parent, all, depth));
        }
    } else {
        assert(did(w0, w1, seq![Step::Ill(Call::ListDir(dir))]));
    }
}

proof fn lemma_same_pairs(dirs: Seq<(Text, Text)>, pair: (Text, Text))
    requires
        dirs.contains(pair),
    ensures
        sorted_pairs(dirs).contains(pair),
{
    broadcast use vstd::seq_lib::group_to_multiset_ensures;

    sorting_sorts(dirs);
    assert(dirs.to_multiset().contains(pair));
    assert(sorted_pairs(dirs).to_multiset().contains(pair));
}

proof fn lemma_each_scanned(
    w0: World,
    w: World,
    dirs: Seq<(Text, Text)>,
    i: nat,
    parent: Option<nat>,
    found: Seq<FoundView>,
    depth: nat,
)
    requires
        did(w0, w, Seq::empty()),
    ensures
        scan_each_within(w, dirs, i, parent, found, depth) matches Some(end) ==> end.2 is Ok
            ==> forall|j: int|
            i <= j < dirs.len() ==> dir_scanned(
                w0,
                end.0,
                (#[trigger] dirs[j]).0,
                dirs[j].1,
                parent,
                end.1,
                depth,
            ),
    decreases depth, 0int, dirs.len() - i,
{
    let end = scan_each_within(w, dirs, i, parent, found, depth);
    if i < dirs.len() && end is Some && (end->0).2 is Ok {
        let (dir, name) = dirs[i as int];
        let (w1, there) = w.path_exists(task_md(dir));
        assert(did(w0, w1, Seq::empty()));
        let (after, all, _) = end->0;
        if !there {
            let missing = seq![Step::No(Call::Exists(path_join(dir, "TASK.md"@)))];
            assert(did(w0, w1, missing));
            lemma_kept_by_scan_each(w0, w1, dirs, i + 1, parent, found, depth, missing);
            lemma_each_scanned(w0, w1, dirs, i + 1, parent, found, depth);
            assert(dir_scanned(w0, after, dir, name, parent, all, depth));
        } else {
            let (w2, content) = w1.read(task_md(dir));
            assert(did(w0, w2, Seq::empty()));
            let content = content->Ok_0;
            let task = task_told(content, name, parent);
            let more = found.push(task);
            let below = (depth - 1) as nat;
            assert(did(w0, w2, task_read(dir, content)));
            lemma_scanned(w0, w2, dir, Some(found.len()), more, below);
            lemma_kept_by_scan(
                w0,
                w2,
                dir,
                Some(found.len()),
                more,
                below,
                task_read(dir, content),
            );
            lemma_kept_by_scan(w0, w2, dir, Some(found.len()), more, below, Seq::empty());
            let (w3, inner, scanned) = scan_within(
                w2,
                dir,
                Some(found.len()),
                more,
                below,
            )->0;
            assert(inner[found.len() as int] == more[found.len() as int]);
            let k: nat = found.len();
            assert(did(w0, w3, task_read(dir, content)) && k < inner.len() && inner[k as int]
                == task_told(content, name, parent));
            assert(dir_scanned(w0, w3, dir, name, parent, inner, depth));
            lemma_each_scanned(w0, w3, dirs, i + 1, parent, inner, depth);
            lemma_kept_by_scan_each(w3, w3, dirs, i + 1, parent, inner, depth, Seq::empty());
            lemma_still_scanned(w0, w3, after, dir, name, parent, inner, all, depth);
        }
    }
}

/// A scan that ends well finds every task below the directory: each directory in
/// it that has a task file, with the fields that the text of the file tells, and
/// likewise those below that one, as its subtasks.
pub proof fn scan_finds_every_task(
    w: World,
    dir: Text,
    parent: Option<nat>,
    found: Seq<FoundView>,
    depth: nat,
)
    requires
        scan_within(w, dir, parent, found, depth) is Some,
        (scan_within(w, dir, parent, found, depth)->0).2 is Ok,
    ensures
        ({
            let (after, all, _) = scan_within(w, dir, parent, found, depth)->0;
            all_scanned(w, after, dir, parent, all, depth) && found.is_prefix_of(all)
        }),
{
    lemma_scanned(w, w, dir, parent, found, depth);
    lemma_kept_by_scan(w, w, dir, parent, found, depth, Seq::empty());
}

// ─── Filling the board ───────────────────────────────────────────────

/// A text or, where there is none, no value.
pub open spec fn cell(value: Option<Text>) -> SqlView {
    match value {
        Some(value) => SqlView::Text(value),
        None => SqlView::Null,
    }
}

/// The UUID of a task: its own or, where it has none, the one made for it.
pub open spec fn task_uuid(found: Seq<FoundView>, fresh: Seq<Text>, k: int) -> Text {
    match found[k].uuid {
        Some(uuid) => uuid,
        None => fresh[k],
    }
}

/// Putting a task into the database of the board: each of its fields in the
/// column of that name, and the UUID of its parent task in the last.
pub open spec fn row_call(db: Text, found: Seq<FoundView>, fresh: Seq<Text>, k: int) -> Call {
    let task = found[k];
    Call::SqliteExecute {
        db,
        sql: "INSERT OR REPLACE INTO tasks (task_uuid, task_name, task_status, task_kind, task_description, task_deadline, task_importance, parent_task_uuid) VALUES (?1, ?2, ?3, ?4, ?5, ?6, ?7, ?8)"@,
        params: seq![
            SqlView::Text(task_uuid(found, fresh, k)),
            SqlView::Text(task.name),
            SqlView::Text(task.status),
            SqlView::Text(task.kind),
            cell(task.description),
            cell(task.deadline),
            SqlView::Real(
                match task.importance {
                    Some(importance) => importance,
                    None => "0"@,
                },
            ),
            match task.parent {
                Some(parent) => SqlView::Text(task_uuid(found, fresh, parent as int)),
                None => SqlView::Null,
            },
        ],
    }
}

/// The board was emptied, and then a task put into it.
pub open spec fn row_put(db: Text, found: Seq<FoundView>, fresh: Seq<Text>, k: int) -> Seq<Step> {
    seq![
        Step::Well(
            Call::SqliteExecute { db, sql: "DELETE FROM tasks"@, params: Seq::empty() },
        ),
    ].push(Step::Well(row_call(db, found, fresh, k)))
}

proof fn lemma_kept_by_insert(
    w0: World,
    w: World,
    db: Text,
    found: Seq<FoundView>,
    fresh: Seq<Text>,
    i: nat,
    steps: Seq<Step>,
)
    requires
        did(w0, w, steps),
    ensures
        did(w0, insert_from_run(w, db, found, fresh, i).0, steps),
    decreases found.len() - i,
{
    if i < found.len() {
        let call = Call::SqliteExecute {
            db,
            sql: crate::board::INSERT_TASK@,
            params: row_params(found, fresh, i as int),
        };
        let w1 = w.asked(call);
        assert(did(w0, w1, steps));
        lemma_kept_by_insert(w0, w1, db, found, fresh, i + 1, steps);
    }
}

proof fn lemma_inserted(
    w0: World,
    w: World,
    db: Text,
    found: Seq<FoundView>,
    fresh: Seq<Text>,
    i: nat,
    k: int,
    steps: Seq<Step>,
)
    requires
        did(w0, w, steps),
        i <= k < found.len(),
        insert_from_run(w, db, found, fresh, i).1 is Ok,
    ensures
        did(
            w0,
            insert_from_run(w, db, found, fresh, i).0,
            steps.push(Step::Well(row_call(db, found, fresh, k))),
        ),
    decreases found.len() - i,
{
    let call = Call::SqliteExecute {
        db,
        sql: crate::board::INSERT_TASK@,
        params: row_params(found, fresh, i as int),
    };
    let w1 = w.asked(call);
    assert(did(w0, w1, steps));
    if i < k {
        lemma_inserted(w0, w1, db, found, fresh, i + 1, k, steps);
    } else {
        assert(row_params(found, fresh, k) =~= row_call(db, found, fresh, k)->params);
        assert(call == row_call(db, found, fresh, k));
        let all = steps.push(Step::Well(row_call(db, found, fresh, k)));
        assert(did(w0, w1, all));
        lemma_kept_by_insert(w0, w1, db, found, fresh, i + 1, all);
    }
}

/// Were these tasks found below the directory, and each put into the database,
/// once that was emptied?
pub open spec fn board_filled(
    w0: World,
    w: World,
    b: BoardView,
    found: Seq<FoundView>,
    fresh: Seq<Text>,
    depth: nat,
) -> bool {
    &&& all_scanned(w0, w, path_join(path_join(b.base, "board"@), "tasks"@), None, found, depth)
    &&& forall|k: int|
        0 <= k < found.len() ==> did(
            w0,
            w,
            #[trigger] row_put(
                path_join(path_join(b.base, "board"@), "board.db"@),
                found,
                fresh,
                k,
            ),
        )
}

/// The board is emptied, and no directory of tasks is found.
pub open spec fn cleared_alone(b: BoardView) -> Seq<Step> {
    let worktree = path_join(b.base, "board"@);
    seq![
        Step::Well(
            Call::SqliteExecute {
                db: path_join(worktree, "board.db"@),
                sql: "DELETE FROM tasks"@,
                params: Seq::empty(),
            },
        ),
    ].push(Step::No(Call::Exists(path_join(worktree, "tasks"@))))
}

/// Rebuilding empties the board, finds every task on disk and puts each of them
/// into it, with the fields that its file tells; the number that comes back is
/// theirs. Without a directory of tasks the board is left empty.
pub proof fn board_shows_every_task(w: World, b: BoardView, depth: nat, fresh: Seq<Text>)
    requires
        fill_within(w, b, depth, fresh) is Some,
        (fill_within(w, b, depth, fresh)->0).1 is Ok,
    ensures
        ({
            let (after, count) = fill_within(w, b, depth, fresh)->0;
            ||| did(w, after, cleared_alone(b)) && count->Ok_0 == 0
            ||| exists|found: Seq<FoundView>| #[trigger]
                board_filled(w, after, b, found, fresh, depth) && count->Ok_0
                    == found.len() as usize && fresh.len() == found.len()
        }),
{
    let db = path_join(path_join(b.base, "board"@), "board.db"@);
    let tasks = path_join(path_join(b.base, "board"@), "tasks"@);
    let clear = Call::SqliteExecute { db, sql: "DELETE FROM tasks"@, params: Seq::empty() };
    let w1 = w.asked(clear);
    let cleared = seq![Step::Well(clear)];
    assert(did(w, w1, cleared));
    let (w2, there) = w1.path_exists(tasks);
    if there {
        assert(did(w, w2, cleared));
        assert(did(w, w2, Seq::empty()));
        let (w3, found, scanned) = scan_within(w2, tasks, None, Seq::empty(), depth)->0;
        lemma_scanned(w, w2, tasks, None, Seq::empty(), depth);
        lemma_kept_by_scan(w, w2, tasks, None, Seq::empty(), depth, cleared);
        let (after, inserted) = insert_from_run(w3, db, found, fresh, 0);
        lemma_kept_by_scan(w3, w3, tasks, None, Seq::empty(), depth, Seq::empty());
        lemma_kept_by_insert(w3, w3, db, found, fresh, 0, Seq::empty());
        lemma_still_all_scanned(w, w3, after, tasks, None, found, found, depth);
        assert forall|k: int| 0 <= k < found.len() implies did(
            w,
            after,
            #[trigger] row_put(db, found, fresh, k),
        ) by {
            lemma_inserted(w, w3, db, found, fresh, 0, k, cleared);
        }
        assert(board_filled(w, after, b, found, fresh, depth));
    } else {
        assert(did(w, w2, cleared.push(Step::No(Call::Exists(tasks)))));
    }
}

/// Rebuilding a board opens its database and fills it.
pub proof fn rebuilding_fills_the_board(w: World, b: BoardView, depth: nat, fresh: Seq<Text>)
    requires
        rebuild_within(w, b, depth, fresh) is Some,
        (rebuild_within(w, b, depth, fresh)->0).1 is Ok,
    ensures
        ({
            let (after, count) = rebuild_within(w, b, depth, fresh)->0;
            let opened = board_opened(w, b);
            ||| did(opened, after, cleared_alone(b)) && count->Ok_0 == 0
            ||| exists|found: Seq<FoundView>| #[trigger]
                board_filled(opened, after, b, found, fresh, depth) && count->Ok_0
                    == found.len() as usize
        }),
{
    board_shows_every_task(board_opened(w, b), b, depth, fresh);
}

/// The world once the database of the board was opened: its table is there.
pub open spec fn board_opened(w: World, b: BoardView) -> World {
    w.asked(
        Call::SqliteExecute {
            db: path_join(path_join(b.base, "board"@), "board.db"@),
            sql: crate::board::BOARD_SCHEMA@,
            params: Seq::empty(),
        },
    )
}

/// A board without a database is filled once its database was opened; one with a
/// database is left as it is.
pub proof fn missing_board_is_filled(w: World, b: BoardView, depth: nat, fresh: Seq<Text>)
    requires
        ensure_within(w, b, depth, fresh) is Some,
        (ensure_within(w, b, depth, fresh)->0).1 is Ok,
    ensures
        ({
            let after = (ensure_within(w, b, depth, fresh)->0).0;
            let db = path_join(path_join(b.base, "board"@), "board.db"@);
            let (w1, there) = w.path_exists(db);
            let opened = board_opened(w1, b);
            if there {
                after == opened
            } else {
                ||| did(opened, after, cleared_alone(b))
                ||| exists|found: Seq<FoundView>| #[trigger]
                    board_filled(opened, after, b, found, fresh, depth)
            }
        }),
{
    let db = path_join(path_join(b.base, "board"@), "board.db"@);
    let (w1, there) = w.path_exists(db);
    if !there {
        board_shows_every_task(board_opened(w1, b), b, depth, fresh);
    }
}

/// The name of a task is the one that its frontmatter tells.
pub proof fn task_name_is_what_its_text_tells(md: Text, name: Text)
    ensures
        tells(md, "name"@, name) ==> crate::propagate::name_in(md) == name,
        crate::propagate::name_in(md).len() > 0 ==> tells(
            md,
            "name"@,
            crate::propagate::name_in(md),
        ),
{
    frontmatter_value_is_on_its_line(md, "name"@, name);
    frontmatter_value_is_on_its_line(md, "name"@, crate::propagate::name_in(md));
}

} // verus!
