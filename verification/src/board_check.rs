//! Checking a board's database against its task tree.

use vstd::prelude::*;

use crate::backend::Backend;
use crate::board::{open_run, task_md, Board, BoardView};
use crate::failure::{outcome, Failure, Outcome};
use crate::frontmatter::{frontmatter_of, parse_frontmatter, value_for, FrontmatterMap};
use crate::number::{integer_read, parse_i64};
use crate::paths::join_path;
use crate::text::{cat, cat3, decimal, natural_text, same, Text};
use crate::world::{ListingView, World};

verus! {

// ─── UUIDs in the tree ───────────────────────────────────────────────

/// The UUIDs with the one that a TASK.md tells, if it does.
pub open spec fn with_told(found: Seq<Text>, content: Text) -> Seq<Text> {
    match value_for(frontmatter_of(content).0, "uuid"@) {
        Some(uuid) => found.push(uuid),
        None => found,
    }
}

/// What the search for UUIDs gives: those found, and whether it went through.
pub type Gathering = (World, Seq<Text>, Outcome<()>);

/// Collecting the UUIDs that the TASK.md files under `dir` tell, behind those in
/// `found`, no more than `depth` levels deep. A directory that cannot be opened
/// holds none.
pub open spec fn gather_within(w: World, dir: Text, found: Seq<Text>, depth: nat) -> Option<
    Gathering,
>
    decreases depth, 1int, 0int,
{
    let (w, listing) = w.list_dir(dir);
    match listing {
        Err(_) => Some((w, found, Ok(()))),
        Ok(listing) => gather_each_within(w, listing, 0, found, depth),
    }
}

/// Whether the reading of a directory went through.
pub open spec fn read_through(listing: ListingView) -> Outcome<()> {
    match listing.broken {
        None => Ok(()),
        Some(e) => Err(e),
    }
}

/// Collecting the UUIDs at the paths of a directory from the `i`-th on. It fails
/// where the reading of the directory broke off.
pub open spec fn gather_each_within(
    w: World,
    listing: ListingView,
    i: nat,
    found: Seq<Text>,
    depth: nat,
) -> Option<Gathering>
    decreases depth, 0int, listing.paths.len() - i,
{
    if i >= listing.paths.len() {
        Some((w, found, read_through(listing)))
    } else {
        let path = listing.paths[i as int];
        let (w, is_dir) = w.is_dir(path);
        if !is_dir {
            gather_each_within(w, listing, i + 1, found, depth)
        } else {
            let (w, told) = told_run(w, path, found);
            match told {
                Err(e) => Some((w, found, Err(e))),
                Ok(found) => if depth == 0 {
                    None
                } else {
                    match gather_within(w, path, found, (depth - 1) as nat) {
                        None => None,
                        Some((w, found, Err(e))) => Some((w, found, Err(e))),
                        Some((w, found, Ok(_))) => gather_each_within(
                            w,
                            listing,
                            i + 1,
                            found,
                            depth,
                        ),
                    }
                },
            }
        }
    }
}

/// Adding the UUID that the TASK.md of a directory tells, where it has one.
pub open spec fn told_run(w: World, dir: Text, found: Seq<Text>) -> (World, Outcome<Seq<Text>>) {
    let (w, there) = w.path_exists(task_md(dir));
    if !there {
        (w, Ok(found))
    } else {
        let (w, content) = w.read(task_md(dir));
        match content {
            Err(e) => (w, Err(e)),
            Ok(content) => (w, Ok(with_told(found, content))),
        }
    }
}

proof fn lemma_gather(w: World, dir: Text, found: Seq<Text>, depth: nat, more: nat)
    requires
        gather_within(w, dir, found, depth) is Some,
        depth <= more,
    ensures
        gather_within(w, dir, found, more) == gather_within(w, dir, found, depth),
    decreases depth, 1int, 0int,
{
    let (w1, listing) = w.list_dir(dir);
    match listing {
        Err(_) => {},
        Ok(listing) => {
            lemma_gather_each(w1, listing, 0, found, depth, more);
        },
    }
}

proof fn lemma_gather_each(
    w: World,
    listing: ListingView,
    i: nat,
    found: Seq<Text>,
    depth: nat,
    more: nat,
)
    requires
        gather_each_within(w, listing, i, found, depth) is Some,
        depth <= more,
    ensures
        gather_each_within(w, listing, i, found, more) == gather_each_within(
            w,
            listing,
            i,
            found,
            depth,
        ),
    decreases depth, 0int, listing.paths.len() - i,
{
    if i < listing.paths.len() {
        let path = listing.paths[i as int];
        let (w1, is_dir) = w.is_dir(path);
        if !is_dir {
            lemma_gather_each(w1, listing, i + 1, found, depth, more);
        } else {
            let (w2, told) = told_run(w1, path, found);
            match told {
                Err(_) => {},
                Ok(now) => {
                    lemma_gather(w2, path, now, (depth - 1) as nat, (more - 1) as nat);
                    match gather_within(w2, path, now, (depth - 1) as nat) {
                        Some((w3, found, Ok(_))) => {
                            lemma_gather_each(w3, listing, i + 1, found, depth, more);
                        },
                        _ => {},
                    }
                },
            }
        }
    }
}

/// Add the UUID that the TASK.md of a directory tells, where it has one.
fn add_told<B: Backend>(backend: &mut B, dir: &str, found: &mut Vec<String>) -> (r: Result<
    (),
    Failure,
>)
    ensures
        ({
            let (w, told) = told_run(old(backend).world(), dir@, old(found).deep_view());
            &&& final(backend).world() == w
            &&& match told {
                Ok(now) => r is Ok && final(found).deep_view() == now,
                Err(e) => outcome(r) == Err::<(), Seq<Text>>(e) && final(found).deep_view() == old(
                    found,
                ).deep_view(),
            }
        }),
{
    let path = join_path(dir, "TASK.md");
    if !backend.path_exists(path.as_str()) {
        return Ok(());
    }
    let content = backend.read_to_string(path.as_str())?;
    let (pairs, _) = parse_frontmatter(content.as_str());
    let fm = FrontmatterMap(&pairs);
    if let Some(uuid) = fm.get("uuid") {
        let ghost before = found.deep_view();
        found.push(uuid);
        assert(found.deep_view() =~= before.push(uuid@));
    }
    Ok(())
}

/// Collect the UUIDs that the TASK.md files under a directory tell. The
/// directories that were gone into are kept in `seen`.
fn collect_tree_uuids<B: Backend>(
    backend: &mut B,
    dir: &str,
    seen: &mut Vec<String>,
    found: &mut Vec<String>,
) -> (r: Result<(), Failure>)
    ensures
        final(seen)@.len() >= old(seen)@.len(),
        exists|depth: nat|
            #[trigger] gather_within(
                old(backend).world(),
                dir@,
                old(found).deep_view(),
                depth,
            ) == Some((final(backend).world(), final(found).deep_view(), outcome(r))),
    decreases usize::MAX - old(seen)@.len(),
{
    let ghost w0 = backend.world();
    let ghost found0 = found.deep_view();
    let ghost at_once = gather_within(w0, dir@, found0, 0);
    let listing = match backend.list_dir(dir) {
        Ok(listing) => listing,
        Err(_) => {
            return Ok(());
        },
    };
    let ghost all = listing.deep_view();
    let paths = &listing.paths;
    let ghost w1 = backend.world();
    let ghost mut need: nat = 0;
    let mut i: usize = 0;
    while i < paths.len()
        invariant
            i <= paths@.len(),
            all.paths == paths.deep_view(),
            w0 == old(backend).world(),
            found0 == old(found).deep_view(),
            seen@.len() >= old(seen)@.len(),
            forall|depth: nat|
                #[trigger] gather_within(w0, dir@, found0, depth) == gather_each_within(
                    w1,
                    all,
                    0,
                    found0,
                    depth,
                ),
            forall|depth: nat|
                depth >= need ==> #[trigger] gather_each_within(w1, all, 0, found0, depth)
                    == gather_each_within(
                    backend.world(),
                    all,
                    i as nat,
                    found.deep_view(),
                    depth,
                ),
        decreases paths@.len() - i,
    {
        proof {
            assert(all.paths[i as int] == paths@[i as int]@);
            assert(gather_within(w0, dir@, found0, need) == gather_each_within(
                w1,
                all,
                0,
                found0,
                need,
            ));
        }
        let path = paths[i].as_str();
        if !backend.is_dir(path) {
            i = i + 1;
            continue ;
        }
        add_told(backend, path, found)?;
        let ghost now = found.deep_view();
        let ghost w2 = backend.world();
        seen.push(path.to_owned());
        assert(seen.len() <= usize::MAX);
        let done = collect_tree_uuids(backend, path, seen, found);
        proof {
            let depth = choose|depth: nat|
                #[trigger] gather_within(w2, path@, now, depth) == Some(
                    (backend.world(), found.deep_view(), outcome(done)),
                );
            let enough: nat = if need > depth + 1 {
                need
            } else {
                depth + 1
            };
            assert forall|d: nat| d >= enough implies #[trigger] gather_each_within(
                w1,
                all,
                0,
                found0,
                d,
            ) == (match outcome(done) {
                Err(e) => Some((backend.world(), found.deep_view(), Err::<(), Seq<Text>>(e))),
                Ok(_) => gather_each_within(
                    backend.world(),
                    all,
                    (i + 1) as nat,
                    found.deep_view(),
                    d,
                ),
            }) by {
                lemma_gather(w2, path@, now, depth, (d - 1) as nat);
            }
            need = enough;
            assert(gather_within(w0, dir@, found0, need) == gather_each_within(
                w1,
                all,
                0,
                found0,
                need,
            ));
        }
        done?;
        i = i + 1;
    }
    proof {
        assert(gather_within(w0, dir@, found0, need) == gather_each_within(
            w1,
            all,
            0,
            found0,
            need,
        ));
    }
    match listing.broken {
        None => Ok(()),
        Some(e) => Err(e),
    }
}

// ─── Issues ──────────────────────────────────────────────────────────

/// The texts that are not among others, each once, with `head` before it and
/// `tail` behind it.
pub open spec fn strays(texts: Seq<Text>, others: Seq<Text>, head: Text, tail: Text) -> Seq<Text>
    decreases texts.len(),
{
    if texts.len() == 0 {
        Seq::empty()
    } else {
        let front = strays(texts.drop_last(), others, head, tail);
        if others.contains(texts.last()) || texts.drop_last().contains(texts.last()) {
            front
        } else {
            front.push(head + texts.last() + tail)
        }
    }
}

/// The issues between the UUIDs of the database and those of the tree.
pub open spec fn differences(in_db: Seq<Text>, in_tree: Seq<Text>) -> Seq<Text> {
    strays(in_db, in_tree, "DB has task "@, " but no TASK.md found in tree"@) + strays(
        in_tree,
        in_db,
        "Tree has TASK.md with uuid "@,
        " but no DB row"@,
    )
}

/// The issue that an integrity check tells, if it does.
pub open spec fn integrity_issues(told: Outcome<Seq<Text>>) -> Seq<Text> {
    let text = match told {
        Ok(rows) if rows.len() > 0 => rows[0],
        _ => "error running integrity_check"@,
    };
    if text == "ok"@ {
        Seq::empty()
    } else {
        seq!["SQLite integrity_check: "@ + text]
    }
}

/// The number of rows that a count tells; zero where it tells none.
pub open spec fn counted(told: Outcome<Seq<Text>>) -> int {
    match told {
        Ok(rows) if rows.len() > 0 => match integer_read(
            rows[0],
            i64::MIN as int,
            i64::MAX as int,
        ) {
            Ok(n) => n,
            Err(_) => 0,
        },
        _ => 0,
    }
}

/// The issue of rows without a tree.
pub open spec fn orphan_issues(count: int) -> Seq<Text> {
    if count > 0 {
        seq!["tasks/ directory missing but DB has "@ + decimal(count as nat) + " rows"@]
    } else {
        Seq::empty()
    }
}

/// Is a text among others?
fn among(texts: &Vec<String>, count: usize, s: &str) -> (r: bool)
    requires
        count <= texts@.len(),
    ensures
        r == texts.deep_view().take(count as int).contains(s@),
{
    let ghost some = texts.deep_view().take(count as int);
    let mut i: usize = 0;
    while i < count
        invariant
            i <= count <= texts@.len(),
            some == texts.deep_view().take(count as int),
            forall|j: int| 0 <= j < i ==> some[j] != s@,
        decreases count - i,
    {
        assert(some[i as int] == texts@[i as int]@);
        if same(texts[i].as_str(), s) {
            assert(some.contains(s@));
            return true;
        }
        i = i + 1;
    }
    false
}

/// Add an issue for each text that is not among others.
fn add_strays(
    issues: &mut Vec<String>,
    texts: &Vec<String>,
    others: &Vec<String>,
    head: &str,
    tail: &str,
)
    ensures
        final(issues).deep_view() == old(issues).deep_view() + strays(
            texts.deep_view(),
            others.deep_view(),
            head@,
            tail@,
        ),
{
    let ghost all = texts.deep_view();
    let ghost start = issues.deep_view();
    let mut i: usize = 0;
    assert(start + strays(all.take(0), others.deep_view(), head@, tail@) =~= start);
    assert(others.deep_view().take(others@.len() as int) =~= others.deep_view());
    while i < texts.len()
        invariant
            i <= texts@.len(),
            all == texts.deep_view(),
            others.deep_view().take(others@.len() as int) == others.deep_view(),
            issues.deep_view() == start + strays(
                all.take(i as int),
                others.deep_view(),
                head@,
                tail@,
            ),
        decreases texts@.len() - i,
    {
        let ghost before = issues.deep_view();
        proof {
            assert(all.take(i + 1).drop_last() =~= all.take(i as int));
            assert(all.take(i + 1).last() == texts@[i as int]@);
        }
        if !among(others, others.len(), texts[i].as_str()) && !among(
            texts,
            i,
            texts[i].as_str(),
        ) {
            let issue = cat3(head, texts[i].as_str(), tail);
            issues.push(issue);
            assert(issues.deep_view() =~= before.push(issue@));
        }
        i = i + 1;
        assert(issues.deep_view() =~= start + strays(
            all.take(i as int),
            others.deep_view(),
            head@,
            tail@,
        ));
    }
    assert(all.take(texts@.len() as int) =~= all);
}

/// Checking a board whose database is there, behind the issues of its integrity.
pub open spec fn cross_check_within(w: World, b: BoardView, issues: Seq<Text>, depth: nat) -> Option<
    (World, Outcome<Seq<Text>>),
> {
    let (w, there) = w.path_exists(b.tasks());
    if !there {
        let (w, count) = w.sqlite_texts(b.db(), "SELECT COUNT(*) FROM tasks"@);
        Some((w, Ok(issues + orphan_issues(counted(count)))))
    } else {
        let (w, in_db) = w.sqlite_texts(b.db(), "SELECT task_uuid FROM tasks"@);
        match in_db {
            Err(e) => Some((w, Err(e))),
            Ok(in_db) => match gather_within(w, b.tasks(), Seq::empty(), depth) {
                None => None,
                Some((w, _, Err(e))) => Some((w, Err(e))),
                Some((w, in_tree, Ok(_))) => Some((w, Ok(issues + differences(in_db, in_tree)))),
            },
        }
    }
}

/// Checking a board, no more than `depth` levels deep.
pub open spec fn check_within(w: World, b: BoardView, depth: nat) -> Option<
    (World, Outcome<Seq<Text>>),
> {
    let (w, there) = w.path_exists(b.db());
    if !there {
        Some((w, Ok(seq!["board.db does not exist"@])))
    } else {
        let (w, opened) = open_run(w, b);
        match opened {
            Err(e) => Some((w, Err(e))),
            Ok(_) => {
                let (w, told) = w.sqlite_texts(b.db(), "PRAGMA integrity_check"@);
                cross_check_within(w, b, integrity_issues(told), depth)
            },
        }
    }
}

/// The issue that an integrity check tells, if it does.
fn issues_of_integrity(told: Result<Vec<String>, Failure>) -> (r: Vec<String>)
    ensures
        r.deep_view() == integrity_issues(outcome(told)),
{
    let mut issues: Vec<String> = Vec::new();
    let integrity: String = match told {
        Ok(rows) => {
            assert(rows.deep_view().len() == rows@.len());
            if rows.len() > 0 {
                assert(rows.deep_view()[0] == rows@[0]@);
                rows[0].clone()
            } else {
                "error running integrity_check".to_owned()
            }
        },
        Err(_) => "error running integrity_check".to_owned(),
    };
    if !same(integrity.as_str(), "ok") {
        let issue = cat("SQLite integrity_check: ", integrity.as_str());
        issues.push(issue);
        assert(issues.deep_view() =~= seq![issue@]);
    } else {
        assert(issues.deep_view() =~= Seq::<Text>::empty());
    }
    issues
}

/// The number of rows that a count tells; zero where it tells none.
fn count_of(told: Result<Vec<String>, Failure>) -> (r: i64)
    ensures
        r == counted(outcome(told)),
{
    match told {
        Ok(rows) => {
            assert(rows.deep_view().len() == rows@.len());
            if rows.len() > 0 {
                assert(rows.deep_view()[0] == rows@[0]@);
                match parse_i64(rows[0].as_str()) {
                    Ok(n) => n,
                    Err(_) => 0,
                }
            } else {
                0
            }
        },
        Err(_) => 0,
    }
}

impl Board {
    /// Check the board's database for corruption and consistency with the
    /// task tree.
    pub fn check<B: Backend>(&self, backend: &mut B) -> (r: Result<Vec<String>, Failure>)
        ensures
            exists|depth: nat|
                #[trigger] check_within(old(backend).world(), self@, depth) == Some(
                    (final(backend).world(), outcome(r)),
                ),
    {
        let ghost w0 = backend.world();
        let ghost at_once = check_within(w0, self@, 0);
        let db = self.db_path();
        if !backend.path_exists(db.as_str()) {
            let mut issues: Vec<String> = Vec::new();
            issues.push("board.db does not exist".to_owned());
            assert(issues.deep_view() =~= seq!["board.db does not exist"@]);
            return Ok(issues);
        }
        self.open_db(backend)?;

        // 1. SQLite integrity check.
        let told = backend.sqlite_texts(db.as_str(), "PRAGMA integrity_check");
        let mut issues = issues_of_integrity(told);
        let ghost first = issues.deep_view();

        // 2. Cross-check DB rows against tasks/ tree.
        let tasks_dir = self.tasks_dir();
        if !backend.path_exists(tasks_dir.as_str()) {
            // No tasks dir: DB should be empty.
            let told = backend.sqlite_texts(db.as_str(), "SELECT COUNT(*) FROM tasks");
            let row_count: i64 = count_of(told);
            if row_count > 0 {
                let number = natural_text(row_count as u64);
                let issue = cat3(
                    "tasks/ directory missing but DB has ",
                    number.as_str(),
                    " rows",
                );
                issues.push(issue);
                assert(issues.deep_view() =~= first + orphan_issues(row_count as int));
            } else {
                assert(issues.deep_view() =~= first + orphan_issues(row_count as int));
            }
            return Ok(issues);
        }
        // Collect all task UUIDs from DB.

        let in_db = backend.sqlite_texts(db.as_str(), "SELECT task_uuid FROM tasks")?;
        let ghost w1 = backend.world();

        // Walk the tree and collect file-based UUIDs.
        let mut seen: Vec<String> = Vec::new();
        let mut in_tree: Vec<String> = Vec::new();
        assert(in_tree.deep_view() =~= Seq::<Text>::empty());
        let gathered = collect_tree_uuids(backend, tasks_dir.as_str(), &mut seen, &mut in_tree);
        let ghost depth = choose|depth: nat|
            #[trigger] gather_within(w1, self@.tasks(), Seq::empty(), depth) == Some(
                (backend.world(), in_tree.deep_view(), outcome(gathered)),
            );
        let ghost now = check_within(w0, self@, depth);
        gathered?;

        // UUIDs in DB but not in tree.
        add_strays(
            &mut issues,
            &in_db,
            &in_tree,
            "DB has task ",
            " but no TASK.md found in tree",
        );

        // UUIDs in tree but not in DB.
        add_strays(
            &mut issues,
            &in_tree,
            &in_db,
            "Tree has TASK.md with uuid ",
            " but no DB row",
        );
        assert(issues.deep_view() =~= first + differences(
            in_db.deep_view(),
            in_tree.deep_view(),
        ));
        Ok(issues)
    }
}

// ─── Laws ────────────────────────────────────────────────────────────

proof fn lemma_no_strays(texts: Seq<Text>, others: Seq<Text>, head: Text, tail: Text)
    ensures
        strays(texts, others, head, tail).len() == 0 <==> forall|i: int|
            0 <= i < texts.len() ==> others.contains(#[trigger] texts[i]),
    decreases texts.len(),
{
    if texts.len() > 0 {
        let front = texts.drop_last();
        lemma_no_strays(front, others, head, tail);
        if strays(texts, others, head, tail).len() == 0 {
            assert forall|i: int| 0 <= i < texts.len() implies others.contains(
                #[trigger] texts[i],
            ) by {
                if i < front.len() {
                    assert(others.contains(front[i]));
                } else if front.contains(texts.last()) {
                    let j = front.index_of(texts.last());
                    assert(others.contains(front[j]));
                }
            }
        }
        if forall|i: int| 0 <= i < texts.len() ==> others.contains(#[trigger] texts[i]) {
            assert(others.contains(texts[texts.len() - 1]));
            assert forall|i: int| 0 <= i < front.len() implies others.contains(
                #[trigger] front[i],
            ) by {
                assert(others.contains(texts[i]));
            }
        }
    }
}

/// A check finds no difference just where the database and the tree hold the same
/// UUIDs.
pub proof fn no_differences_when_same(in_db: Seq<Text>, in_tree: Seq<Text>)
    ensures
        differences(in_db, in_tree).len() == 0 <==> (forall|uuid: Text|
            in_db.contains(uuid) <==> in_tree.contains(uuid)),
{
    lemma_no_strays(in_db, in_tree, "DB has task "@, " but no TASK.md found in tree"@);
    lemma_no_strays(in_tree, in_db, "Tree has TASK.md with uuid "@, " but no DB row"@);
    if differences(in_db, in_tree).len() == 0 {
        assert forall|uuid: Text| in_db.contains(uuid) <==> in_tree.contains(uuid) by {
            if in_db.contains(uuid) {
                let i = in_db.index_of(uuid);
                assert(in_tree.contains(in_db[i]));
            }
            if in_tree.contains(uuid) {
                let i = in_tree.index_of(uuid);
                assert(in_db.contains(in_tree[i]));
            }
        }
    }
    if forall|uuid: Text| in_db.contains(uuid) <==> in_tree.contains(uuid) {
        assert forall|i: int| 0 <= i < in_db.len() implies in_tree.contains(
            #[trigger] in_db[i],
        ) by {
            assert(in_db.contains(in_db[i]));
        }
        assert forall|i: int| 0 <= i < in_tree.len() implies in_db.contains(
            #[trigger] in_tree[i],
        ) by {
            assert(in_tree.contains(in_tree[i]));
        }
    }
}

} // verus!
