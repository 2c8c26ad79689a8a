//! Board: a separate object type that holds a task hierarchy.
//!
//! A board lives on an `object/<board-uuid>` branch in a subcontext's bare
//! repo.  Its branch layout is:
//!
//! ```text
//! object/<uuid>/
//! ├── board.db          ← SQLite database (auto-rebuilt from tree)
//! └── tasks/
//!     ├── task-a/
//!     │   ├── TASK.md
//!     │   └── subtask-1/
//!     │       └── TASK.md
//!     └── task-b/
//!         └── TASK.md
//! ```
//!
//! The board is checked out as a worktree so that `board.db` is directly
//! usable by SQLite.

use vstd::prelude::*;

use crate::backend::{argv3, argv4, write_text, Backend, SqlValue};
use crate::failure::{context, contextual, outcome, Failure, Outcome};
use crate::frontmatter::{
    frontmatter_of, parse_frontmatter, value_for, FrontmatterMap, DEFAULT_KIND, DEFAULT_STATUS,
};
use crate::git::run_git_in_bare;
use crate::order::{sort_pairs, sorted_pairs};
use crate::overlay::{commit_work, commit_work_run};
use crate::paths::{file_name, file_name_of, join_path, path_join};
use crate::project::{fresh_uuid, is_uuid};
use crate::text::{cat, cat3, Text};
use crate::world::{SqlView, World};

verus! {

pub const DB_NAME: &'static str = "board.db";

/// A board object: a path to the subcontext that contains it, plus the
/// board's own UUID.
pub struct Board {
    /// Root of the subcontext directory (e.g. `.git/.subcontext/` or
    /// `~/.subcontext/global/`).
    pub subcontext_path: String,
    /// The board's UUID.
    pub uuid: String,
}

/// The view of a board.
pub struct BoardView {
    pub base: Text,
    pub uuid: Text,
}

impl View for Board {
    type V = BoardView;

    open spec fn view(&self) -> BoardView {
        BoardView { base: self.subcontext_path@, uuid: self.uuid@ }
    }
}

impl DeepView for Board {
    type V = BoardView;

    open spec fn deep_view(&self) -> BoardView {
        self@
    }
}

impl BoardView {
    pub open spec fn repo(self) -> Text {
        path_join(self.base, "repo"@)
    }

    pub open spec fn worktree(self) -> Text {
        path_join(self.base, "board"@)
    }

    pub open spec fn db(self) -> Text {
        path_join(self.worktree(), DB_NAME@)
    }

    pub open spec fn branch(self) -> Text {
        "object/"@ + self.uuid
    }

    pub open spec fn reference(self) -> Text {
        "refs/heads/object/"@ + self.uuid
    }

    pub open spec fn tasks(self) -> Text {
        path_join(self.worktree(), "tasks"@)
    }
}

impl Board {
    pub fn new(subcontext_path: String, uuid: String) -> (r: Self)
        ensures
            r@ == (BoardView { base: subcontext_path@, uuid: uuid@ }),
    {
        Board { subcontext_path, uuid }
    }

    /// Path to the subcontext's bare repo.
    pub fn repo_dir(&self) -> (r: String)
        ensures
            r@ == self@.repo(),
    {
        join_path(self.subcontext_path.as_str(), "repo")
    }

    /// Path to the board's worktree checkout.
    pub fn worktree_dir(&self) -> (r: String)
        ensures
            r@ == self@.worktree(),
    {
        join_path(self.subcontext_path.as_str(), "board")
    }

    /// Path to the board's SQLite database.
    pub fn db_path(&self) -> (r: String)
        ensures
            r@ == self@.db(),
    {
        let dir = self.worktree_dir();
        join_path(dir.as_str(), DB_NAME)
    }

    /// The git branch name for this board.
    pub fn branch_name(&self) -> (r: String)
        ensures
            r@ == self@.branch(),
    {
        cat("object/", self.uuid.as_str())
    }

    /// The git ref name for this board.
    pub fn ref_name(&self) -> (r: String)
        ensures
            r@ == self@.reference(),
    {
        cat("refs/heads/object/", self.uuid.as_str())
    }

    /// Path to the `tasks/` directory inside the worktree.
    pub fn tasks_dir(&self) -> (r: String)
        ensures
            r@ == self@.tasks(),
    {
        let dir = self.worktree_dir();
        join_path(dir.as_str(), "tasks")
    }
}

// ─── Tasks in the tree ───────────────────────────────────────────────

/// A task as it was found in the tree.
pub struct FoundTask {
    /// The name of its directory.
    pub name: String,
    pub uuid: Option<String>,
    pub kind: String,
    pub status: String,
    pub description: Option<String>,
    pub deadline: Option<String>,
    pub importance: Option<String>,
    /// The position, among the tasks that were found, of the task that it is a
    /// subtask of.
    pub parent: Option<usize>,
}

/// The view of a task that was found.
pub struct FoundView {
    pub name: Text,
    pub uuid: Option<Text>,
    pub kind: Text,
    pub status: Text,
    pub description: Option<Text>,
    pub deadline: Option<Text>,
    pub importance: Option<Text>,
    pub parent: Option<nat>,
}

impl DeepView for FoundTask {
    type V = FoundView;

    open spec fn deep_view(&self) -> FoundView {
        FoundView {
            name: self.name@,
            uuid: self.uuid.deep_view(),
            kind: self.kind@,
            status: self.status@,
            description: self.description.deep_view(),
            deadline: self.deadline.deep_view(),
            importance: self.importance.deep_view(),
            parent: position(self.parent),
        }
    }
}

/// A position as a natural number.
pub open spec fn position(i: Option<usize>) -> Option<nat> {
    match i {
        Some(i) => Some(i as nat),
        None => None,
    }
}

/// A value, or `missing` where there is none.
pub open spec fn value_or(value: Option<Text>, missing: Text) -> Text {
    match value {
        Some(value) => value,
        None => missing,
    }
}

/// The task that a TASK.md tells.
pub open spec fn task_told(content: Text, name: Text, parent: Option<nat>) -> FoundView {
    let pairs = frontmatter_of(content).0;
    FoundView {
        name,
        uuid: value_for(pairs, "uuid"@),
        kind: value_or(value_for(pairs, "kind"@), DEFAULT_KIND@),
        status: value_or(value_for(pairs, "status"@), DEFAULT_STATUS@),
        description: value_for(pairs, "description"@),
        deadline: value_for(pairs, "deadline"@),
        importance: value_for(pairs, "importance"@),
        parent,
    }
}

/// The task that a TASK.md tells.
pub fn read_task(content: &str, name: &str, parent: Option<usize>) -> (r: FoundTask)
    ensures
        r.deep_view() == task_told(content@, name@, position(parent)),
{
    let (pairs, _) = parse_frontmatter(content);
    let fm = FrontmatterMap(&pairs);
    let kind = match fm.get("kind") {
        Some(kind) => kind,
        None => DEFAULT_KIND.to_owned(),
    };
    let status = match fm.get("status") {
        Some(status) => status,
        None => DEFAULT_STATUS.to_owned(),
    };
    FoundTask {
        name: name.to_owned(),
        uuid: fm.get("uuid"),
        kind,
        status,
        description: fm.get("description"),
        deadline: fm.get("deadline"),
        importance: fm.get("importance"),
        parent,
    }
}

/// Where the TASK.md of a directory is.
pub open spec fn task_md(dir: Text) -> Text {
    path_join(dir, "TASK.md"@)
}

/// The directories among the paths from the `i`-th on, behind those in `dirs`,
/// each with its name.
pub open spec fn dirs_run(w: World, paths: Seq<Text>, i: nat, dirs: Seq<(Text, Text)>) -> (
    World,
    Seq<(Text, Text)>,
)
    decreases paths.len() - i,
{
    if i >= paths.len() {
        (w, dirs)
    } else {
        let path = paths[i as int];
        let (w, is_dir) = w.is_dir(path);
        dirs_run(
            w,
            paths,
            i + 1,
            if is_dir {
                dirs.push((path, value_or(file_name_of(path), Seq::empty())))
            } else {
                dirs
            },
        )
    }
}

/// The directories among paths, each with its name.
fn dirs_among<B: Backend>(backend: &mut B, paths: &Vec<String>) -> (r: Vec<(String, String)>)
    ensures
        (final(backend).world(), r.deep_view()) == dirs_run(
            old(backend).world(),
            paths.deep_view(),
            0,
            Seq::empty(),
        ),
{
    let ghost all = paths.deep_view();
    let ghost w0 = backend.world();
    let mut out: Vec<(String, String)> = Vec::new();
    let mut i: usize = 0;
    assert(out.deep_view() =~= Seq::<(Text, Text)>::empty());
    while i < paths.len()
        invariant
            i <= paths@.len(),
            all == paths.deep_view(),
            w0 == old(backend).world(),
            dirs_run(backend.world(), all, i as nat, out.deep_view()) == dirs_run(
                w0,
                all,
                0,
                Seq::empty(),
            ),
        decreases paths@.len() - i,
    {
        let ghost before = out.deep_view();
        assert(all[i as int] == paths@[i as int]@);
        if backend.is_dir(paths[i].as_str()) {
            let name = match file_name(paths[i].as_str()) {
                Some(name) => name,
                None => {
                    let none = String::new();
                    assert(none@ =~= Seq::<char>::empty());
                    none
                },
            };
            let ghost pair = (paths@[i as int]@, name@);
            out.push((paths[i].clone(), name));
            assert(out.deep_view() =~= before.push(pair));
        }
        i = i + 1;
    }
    out
}

/// What a walk gives: the tasks found, and whether it went through.
pub type Scan = (World, Seq<FoundView>, Outcome<()>);

/// Walking the task directories under `dir`, behind the tasks in `found`, no more
/// than `depth` levels deep: in the order of their names, each followed by its
/// subtasks. A directory without TASK.md is passed over with all below it; one
/// that cannot be opened holds none.
pub open spec fn scan_within(
    w: World,
    dir: Text,
    parent: Option<nat>,
    found: Seq<FoundView>,
    depth: nat,
) -> Option<Scan>
    decreases depth, 1int, 0int,
{
    let (w, listing) = w.list_dir(dir);
    match listing {
        Err(_) => Some((w, found, Ok(()))),
        Ok(listing) => {
            let (w, dirs) = dirs_run(w, listing.paths, 0, Seq::empty());
            match listing.broken {
                Some(e) => Some((w, found, Err(e))),
                None => scan_each_within(w, sorted_pairs(dirs), 0, parent, found, depth),
            }
        },
    }
}

/// Walking the task directories from the `i`-th on.
pub open spec fn scan_each_within(
    w: World,
    dirs: Seq<(Text, Text)>,
    i: nat,
    parent: Option<nat>,
    found: Seq<FoundView>,
    depth: nat,
) -> Option<Scan>
    decreases depth, 0int, dirs.len() - i,
{
    if i >= dirs.len() {
        Some((w, found, Ok(())))
    } else {
        let (dir, name) = dirs[i as int];
        let (w, there) = w.path_exists(task_md(dir));
        if !there {
            scan_each_within(w, dirs, i + 1, parent, found, depth)
        } else {
            let (w, content) = w.read(task_md(dir));
            match contextual(content, "cannot read "@ + task_md(dir)) {
                Err(e) => Some((w, found, Err(e))),
                Ok(content) => if depth == 0 {
                    None
                } else {
                    match scan_within(
                        w,
                        dir,
                        Some(found.len()),
                        found.push(task_told(content, name, parent)),
                        (depth - 1) as nat,
                    ) {
                        None => None,
                        Some((w, found, Err(e))) => Some((w, found, Err(e))),
                        Some((w, found, Ok(_))) => scan_each_within(
                            w,
                            dirs,
                            i + 1,
                            parent,
                            found,
                            depth,
                        ),
                    }
                },
            }
        }
    }
}

/// A walk is one: where it ends, it ends the same way however deep it may go.
pub proof fn scan_is_one(
    w: World,
    dir: Text,
    parent: Option<nat>,
    found: Seq<FoundView>,
    depth: nat,
    more: nat,
)
    requires
        scan_within(w, dir, parent, found, depth) is Some,
        depth <= more,
    ensures
        scan_within(w, dir, parent, found, more) == scan_within(w, dir, parent, found, depth),
    decreases depth, 1int, 0int,
{
    let (w1, listing) = w.list_dir(dir);
    match listing {
        Err(_) => {},
        Ok(listing) => {
            let (w2, dirs) = dirs_run(w1, listing.paths, 0, Seq::empty());
            if listing.broken is None {
                lemma_scan_each(w2, sorted_pairs(dirs), 0, parent, found, depth, more);
            }
        },
    }
}

proof fn lemma_scan_each(
    w: World,
    dirs: Seq<(Text, Text)>,
    i: nat,
    parent: Option<nat>,
    found: Seq<FoundView>,
    depth: nat,
    more: nat,
)
    requires
        scan_each_within(w, dirs, i, parent, found, depth) is Some,
        depth <= more,
    ensures
        scan_each_within(w, dirs, i, parent, found, more) == scan_each_within(
            w,
            dirs,
            i,
            parent,
            found,
            depth,
        ),
    decreases depth, 0int, dirs.len() - i,
{
    if i < dirs.len() {
        let (dir, name) = dirs[i as int];
        let (w1, there) = w.path_exists(task_md(dir));
        if !there {
            lemma_scan_each(w1, dirs, i + 1, parent, found, depth, more);
        } else {
            let (w2, content) = w1.read(task_md(dir));
            match content {
                Err(_) => {},
                Ok(content) => {
                    let now = found.push(task_told(content, name, parent));
                    let at = Some(found.len());
                    scan_is_one(w2, dir, at, now, (depth - 1) as nat, (more - 1) as nat);
                    match scan_within(w2, dir, at, now, (depth - 1) as nat) {
                        Some((w3, found, Ok(_))) => {
                            lemma_scan_each(w3, dirs, i + 1, parent, found, depth, more);
                        },
                        _ => {},
                    }
                },
            }
        }
    }
}

/// Recursively walk the tasks/ directory and collect its tasks.
fn walk_tasks_dir<B: Backend>(
    backend: &mut B,
    dir: &str,
    parent: Option<usize>,
    found: &mut Vec<FoundTask>,
) -> (r: Result<(), Failure>)
    ensures
        final(found)@.len() >= old(found)@.len(),
        exists|depth: nat|
            #[trigger] scan_within(
                old(backend).world(),
                dir@,
                position(parent),
                old(found).deep_view(),
                depth,
            ) == Some((final(backend).world(), final(found).deep_view(), outcome(r))),
    decreases usize::MAX - old(found)@.len(),
{
    let ghost w0 = backend.world();
    let ghost found0 = found.deep_view();
    let ghost up = position(parent);
    let ghost at_once = scan_within(w0, dir@, up, found0, 0);
    let listing = match backend.list_dir(dir) {
        Ok(listing) => listing,
        Err(_) => {
            return Ok(());
        },
    };
    let dirs = dirs_among(backend, &listing.paths);
    if let Some(e) = listing.broken {
        return Err(e);
    }
    let dirs = sort_pairs(dirs);
    let ghost all = dirs.deep_view();
    let ghost w1 = backend.world();
    let ghost mut need: nat = 0;
    let mut i: usize = 0;
    while i < dirs.len()
        invariant
            i <= dirs@.len(),
            all == dirs.deep_view(),
            up == position(parent),
            w0 == old(backend).world(),
            found0 == old(found).deep_view(),
            found@.len() >= old(found)@.len(),
            forall|depth: nat|
                #[trigger] scan_within(w0, dir@, up, found0, depth) == scan_each_within(
                    w1,
                    all,
                    0,
                    up,
                    found0,
                    depth,
                ),
            forall|depth: nat|
                depth >= need ==> #[trigger] scan_each_within(w1, all, 0, up, found0, depth)
                    == scan_each_within(
                    backend.world(),
                    all,
                    i as nat,
                    up,
                    found.deep_view(),
                    depth,
                ),
        decreases dirs@.len() - i,
    {
        let ghost here = backend.world();
        let ghost before = found.deep_view();
        proof {
            assert(all[i as int] == (dirs@[i as int].0@, dirs@[i as int].1@));
            assert(scan_within(w0, dir@, up, found0, need) == scan_each_within(
                w1,
                all,
                0,
                up,
                found0,
                need,
            ));
        }
        let child_dir = dirs[i].0.as_str();
        let path = join_path(child_dir, "TASK.md");
        if !backend.path_exists(path.as_str()) {
            i = i + 1;
            continue ;
        }
        let message = cat("cannot read ", path.as_str());
        let content = context(backend.read_to_string(path.as_str()), message.as_str())?;
        let task = read_task(content.as_str(), dirs[i].1.as_str(), parent);
        let ghost told = task.deep_view();
        let index: usize = found.len();
        found.push(task);
        proof {
            assert(found.deep_view() =~= before.push(told));
            assert(found.len() <= usize::MAX);
        }
        let ghost now = found.deep_view();
        let ghost w2 = backend.world();
        // Recurse into subdirectories for subtasks.
        let done = walk_tasks_dir(backend, child_dir, Some(index), found);
        proof {
            let depth = choose|depth: nat|
                #[trigger] scan_within(w2, child_dir@, Some(index as nat), now, depth) == Some(
                    (backend.world(), found.deep_view(), outcome(done)),
                );
            let enough: nat = if need > depth + 1 {
                need
            } else {
                depth + 1
            };
            assert forall|d: nat| d >= enough implies #[trigger] scan_each_within(
                w1,
                all,
                0,
                up,
                found0,
                d,
            ) == (match outcome(done) {
                Err(e) => Some((backend.world(), found.deep_view(), Err::<(), Seq<Text>>(e))),
                Ok(_) => scan_each_within(
                    backend.world(),
                    all,
                    (i + 1) as nat,
                    up,
                    found.deep_view(),
                    d,
                ),
            }) by {
                scan_is_one(
                    w2,
                    child_dir@,
                    Some(index as nat),
                    now,
                    depth,
                    (d - 1) as nat,
                );
            }
            need = enough;
            assert(scan_within(w0, dir@, up, found0, need) == scan_each_within(
                w1,
                all,
                0,
                up,
                found0,
                need,
            ));
        }
        done?;
        i = i + 1;
    }
    proof {
        assert(scan_within(w0, dir@, up, found0, need) == scan_each_within(
            w1,
            all,
            0,
            up,
            found0,
            need,
        ));
    }
    Ok(())
}

// ─── Rows ────────────────────────────────────────────────────────────

pub const CLEAR_TASKS: &'static str = "DELETE FROM tasks";

pub const INSERT_TASK: &'static str = "INSERT OR REPLACE INTO tasks (task_uuid, task_name, task_status, task_kind, task_description, task_deadline, task_importance, parent_task_uuid) VALUES (?1, ?2, ?3, ?4, ?5, ?6, ?7, ?8)";

pub const BOARD_SCHEMA: &'static str = "CREATE TABLE IF NOT EXISTS tasks (
             task_uuid        TEXT PRIMARY KEY,
             task_name        TEXT NOT NULL,
             task_status      TEXT NOT NULL,
             task_kind        TEXT NOT NULL,
             task_description TEXT DEFAULT NULL,
             task_deadline    TEXT DEFAULT NULL,
             task_importance  REAL NOT NULL DEFAULT 0.0,
             parent_task_uuid TEXT DEFAULT NULL
         );";

/// The UUID of the `i`-th task: its own, or the fresh one.
pub open spec fn uuid_at(found: Seq<FoundView>, fresh: Seq<Text>, i: int) -> Text {
    match found[i].uuid {
        Some(uuid) => uuid,
        None => fresh[i],
    }
}

/// A text that may be missing, as a parameter.
pub open spec fn sql_option(value: Option<Text>) -> SqlView {
    match value {
        Some(value) => SqlView::Text(value),
        None => SqlView::Null,
    }
}

/// The parameters of the row of the `i`-th task.
pub open spec fn row_params(found: Seq<FoundView>, fresh: Seq<Text>, i: int) -> Seq<SqlView> {
    let task = found[i];
    seq![
        SqlView::Text(uuid_at(found, fresh, i)),
        SqlView::Text(task.name),
        SqlView::Text(task.status),
        SqlView::Text(task.kind),
        sql_option(task.description),
        sql_option(task.deadline),
        SqlView::Real(value_or(task.importance, "0"@)),
        match task.parent {
            Some(parent) => SqlView::Text(uuid_at(found, fresh, parent as int)),
            None => SqlView::Null,
        },
    ]
}

/// Inserting the rows from the `i`-th on, up to the first that fails.
pub open spec fn insert_from_run(
    w: World,
    db: Text,
    found: Seq<FoundView>,
    fresh: Seq<Text>,
    i: nat,
) -> (World, Outcome<()>)
    decreases found.len() - i,
{
    if i >= found.len() {
        (w, Ok(()))
    } else {
        let (w, done) = w.sqlite_execute(db, INSERT_TASK@, row_params(found, fresh, i as int));
        match done {
            Err(e) => (w, Err(e)),
            Ok(_) => insert_from_run(w, db, found, fresh, i + 1),
        }
    }
}

/// Does each task that is a subtask come behind the one that it belongs to?
pub open spec fn parents_first(found: Seq<FoundView>) -> bool {
    forall|i: int|
        0 <= i < found.len() ==> match (#[trigger] found[i]).parent {
            Some(parent) => parent < i,
            None => true,
        }
}

/// The UUID of the `i`-th task.
fn task_uuid(found: &Vec<FoundTask>, fresh: &Vec<String>, i: usize) -> (r: String)
    requires
        i < found@.len(),
        fresh@.len() == found@.len(),
    ensures
        r@ == uuid_at(found.deep_view(), fresh.deep_view(), i as int),
{
    assert(found.deep_view()[i as int] == found@[i as int].deep_view());
    assert(fresh.deep_view()[i as int] == fresh@[i as int]@);
    match &found[i].uuid {
        Some(uuid) => uuid.clone(),
        None => fresh[i].clone(),
    }
}

/// A text that may be missing, as a parameter.
fn option_param(value: &Option<String>) -> (r: SqlValue)
    ensures
        r.deep_view() == sql_option(value.deep_view()),
{
    match value {
        Some(value) => SqlValue::Text(value.clone()),
        None => SqlValue::Null,
    }
}

/// Insert the tasks that were found; those without a UUID get the fresh one of
/// their position.
pub fn insert_tasks<B: Backend>(
    backend: &mut B,
    db: &str,
    found: &Vec<FoundTask>,
    fresh: &Vec<String>,
) -> (r: Result<(), Failure>)
    requires
        fresh@.len() == found@.len(),
        parents_first(found.deep_view()),
    ensures
        (final(backend).world(), outcome(r)) == insert_from_run(
            old(backend).world(),
            db@,
            found.deep_view(),
            fresh.deep_view(),
            0,
        ),
{
    let ghost all = found.deep_view();
    let ghost ids = fresh.deep_view();
    let ghost w0 = backend.world();
    let mut i: usize = 0;
    while i < found.len()
        invariant
            i <= found@.len(),
            all == found.deep_view(),
            ids == fresh.deep_view(),
            fresh@.len() == found@.len(),
            parents_first(all),
            w0 == old(backend).world(),
            insert_from_run(backend.world(), db@, all, ids, i as nat) == insert_from_run(
                w0,
                db@,
                all,
                ids,
                0,
            ),
        decreases found@.len() - i,
    {
        let task = &found[i];
        assert(all[i as int] == task.deep_view());
        let uuid = task_uuid(found, fresh, i);
        let parent = match task.parent {
            Some(parent) => SqlValue::Text(task_uuid(found, fresh, parent)),
            None => SqlValue::Null,
        };
        let importance = match &task.importance {
            Some(importance) => importance.clone(),
            None => "0".to_owned(),
        };
        let params = [
            SqlValue::Text(uuid),
            SqlValue::Text(task.name.clone()),
            SqlValue::Text(task.status.clone()),
            SqlValue::Text(task.kind.clone()),
            option_param(&task.description),
            option_param(&task.deadline),
            SqlValue::Real(importance),
            parent,
        ];
        assert(params.deep_view() =~= row_params(all, ids, i as int));
        backend.sqlite_execute(db, INSERT_TASK, &params)?;
        i = i + 1;
    }
    Ok(())
}

/// Are all the texts random UUIDs?
pub open spec fn all_uuids(ids: Seq<Text>) -> bool {
    forall|i: int| 0 <= i < ids.len() ==> is_uuid(#[trigger] ids[i])
}

/// As many random UUIDs as are wanted.
fn fresh_uuids(count: usize) -> (r: Vec<String>)
    ensures
        r@.len() == count,
        all_uuids(r.deep_view()),
{
    let mut out: Vec<String> = Vec::new();
    let mut i: usize = 0;
    while i < count
        invariant
            i <= count,
            out@.len() == i,
            forall|j: int| 0 <= j < i ==> is_uuid((#[trigger] out@[j])@),
        decreases count - i,
    {
        out.push(fresh_uuid());
        i = i + 1;
    }
    assert forall|j: int| 0 <= j < out.deep_view().len() implies is_uuid(
        #[trigger] out.deep_view()[j],
    ) by {
        assert(out.deep_view()[j] == out@[j]@);
    }
    out
}

/// A subtask is found behind the task that it belongs to.
pub proof fn subtasks_follow_their_task(
    w: World,
    dir: Text,
    parent: Option<nat>,
    found: Seq<FoundView>,
    depth: nat,
)
    requires
        parents_first(found),
        parent matches Some(p) ==> p < found.len(),
        scan_within(w, dir, parent, found, depth) is Some,
    ensures
        parents_first((scan_within(w, dir, parent, found, depth)->0).1),
        (scan_within(w, dir, parent, found, depth)->0).1.len() >= found.len(),
    decreases depth, 1int, 0int,
{
    let (w1, listing) = w.list_dir(dir);
    match listing {
        Err(_) => {},
        Ok(listing) => {
            let (w2, dirs) = dirs_run(w1, listing.paths, 0, Seq::empty());
            if listing.broken is None {
                lemma_scan_each_parents(w2, sorted_pairs(dirs), 0, parent, found, depth);
            }
        },
    }
}

proof fn lemma_scan_each_parents(
    w: World,
    dirs: Seq<(Text, Text)>,
    i: nat,
    parent: Option<nat>,
    found: Seq<FoundView>,
    depth: nat,
)
    requires
        parents_first(found),
        parent matches Some(p) ==> p < found.len(),
        scan_each_within(w, dirs, i, parent, found, depth) is Some,
    ensures
        parents_first((scan_each_within(w, dirs, i, parent, found, depth)->0).1),
        (scan_each_within(w, dirs, i, parent, found, depth)->0).1.len() >= found.len(),
    decreases depth, 0int, dirs.len() - i,
{
    if i < dirs.len() {
        let (dir, name) = dirs[i as int];
        let (w1, there) = w.path_exists(task_md(dir));
        if !there {
            lemma_scan_each_parents(w1, dirs, i + 1, parent, found, depth);
        } else {
            let (w2, content) = w1.read(task_md(dir));
            match content {
                Err(_) => {},
                Ok(content) => {
                    let now = found.push(task_told(content, name, parent));
                    let at = Some(found.len());
                    assert(parents_first(now));
                    subtasks_follow_their_task(w2, dir, at, now, (depth - 1) as nat);
                    match scan_within(w2, dir, at, now, (depth - 1) as nat) {
                        Some((w3, found, Ok(_))) => {
                            lemma_scan_each_parents(w3, dirs, i + 1, parent, found, depth);
                        },
                        _ => {},
                    }
                },
            }
        }
    }
}

// ─── The database ────────────────────────────────────────────────────

/// Rebuilding the database from the tree, where the walk goes no more than
/// `depth` levels deep and `fresh` holds a UUID for each task that is found.
/// The tasks that were found before a failure are in the database.
pub open spec fn fill_within(w: World, b: BoardView, depth: nat, fresh: Seq<Text>) -> Option<
    (World, Outcome<usize>),
> {
    let (w, cleared) = w.sqlite_execute(b.db(), CLEAR_TASKS@, Seq::empty());
    match cleared {
        Err(e) => Some((w, Err(e))),
        Ok(_) => {
            let (w, there) = w.path_exists(b.tasks());
            if !there {
                Some((w, Ok(0)))
            } else {
                match scan_within(w, b.tasks(), None, Seq::empty(), depth) {
                    None => None,
                    Some((w, found, scanned)) => if fresh.len() != found.len() {
                        None
                    } else {
                        let (w, inserted) = insert_from_run(w, b.db(), found, fresh, 0);
                        match (inserted, scanned) {
                            (Err(e), _) => Some((w, Err(e))),
                            (_, Err(e)) => Some((w, Err(e))),
                            _ => Some((w, Ok(found.len() as usize))),
                        }
                    },
                }
            }
        },
    }
}

/// Opening the database: its schema is created where it is missing.
pub open spec fn open_run(w: World, b: BoardView) -> (World, Outcome<()>) {
    w.sqlite_execute(b.db(), BOARD_SCHEMA@, Seq::empty())
}

/// Opening the database and rebuilding it.
pub open spec fn rebuild_within(w: World, b: BoardView, depth: nat, fresh: Seq<Text>) -> Option<
    (World, Outcome<usize>),
> {
    let (w, opened) = open_run(w, b);
    match opened {
        Err(e) => Some((w, Err(e))),
        Ok(_) => fill_within(w, b, depth, fresh),
    }
}

/// Opening the database, and rebuilding it where it did not exist.
pub open spec fn ensure_within(w: World, b: BoardView, depth: nat, fresh: Seq<Text>) -> Option<
    (World, Outcome<()>),
> {
    let (w, there) = w.path_exists(b.db());
    let (w, opened) = open_run(w, b);
    match opened {
        Err(e) => Some((w, Err(e))),
        Ok(_) => if there {
            Some((w, Ok(())))
        } else {
            match fill_within(w, b, depth, fresh) {
                None => None,
                Some((w, Err(e))) => Some((w, Err(e))),
                Some((w, Ok(_))) => Some((w, Ok(()))),
            }
        },
    }
}

impl Board {
    // ─── Worktree management ─────────────────────────────────────────

    /// Ensure the board's worktree is checked out.  Creates it if missing.
    pub fn ensure_worktree<B: Backend>(&self, backend: &mut B) -> (r: Result<(), Failure>)
        ensures
            (final(backend).world(), outcome(r)) == worktree_run(old(backend).world(), self@),
    {
        let wt = self.worktree_dir();
        if backend.path_exists(wt.as_str()) {
            return Ok(());
        }
        let repo = self.repo_dir();
        let branch = self.branch_name();
        run_git_in_bare(
            backend,
            &argv4("worktree", "add", wt.as_str(), branch.as_str()),
            repo.as_str(),
            repo.as_str(),
        )?;
        Ok(())
    }

    // ─── Database ────────────────────────────────────────────────────

    /// Open (or create) the board's SQLite database.
    pub fn open_db<B: Backend>(&self, backend: &mut B) -> (r: Result<(), Failure>)
        ensures
            (final(backend).world(), outcome(r)) == open_run(old(backend).world(), self@),
    {
        let db = self.db_path();
        create_board_schema(backend, db.as_str())
    }

    /// Ensure the database exists and is populated from the task tree.
    /// Creates the DB if it doesn't exist, or opens it if it does.
    pub fn ensure_db<B: Backend>(&self, backend: &mut B) -> (r: Result<(), Failure>)
        ensures
            exists|depth: nat, fresh: Seq<Text>|
                all_uuids(fresh) && #[trigger] ensure_within(
                    old(backend).world(),
                    self@,
                    depth,
                    fresh,
                ) == Some((final(backend).world(), outcome(r))),
    {
        let ghost w0 = backend.world();
        let ghost at_once = ensure_within(w0, self@, 0, Seq::empty());
        assert(all_uuids(Seq::empty()));
        let db = self.db_path();
        let needs_rebuild = !backend.path_exists(db.as_str());
        self.open_db(backend)?;
        if needs_rebuild {
            let ghost w1 = backend.world();
            let done = self.rebuild_db_inner(backend);
            proof {
                let (depth, fresh) = choose|depth: nat, fresh: Seq<Text>|
                    all_uuids(fresh) && #[trigger] fill_within(w1, self@, depth, fresh) == Some(
                        (backend.world(), outcome(done)),
                    );
                let now = ensure_within(w0, self@, depth, fresh);
            }
            done?;
        }
        Ok(())
    }

    /// Rebuild the board's SQLite database from the `tasks/` tree.
    /// Drops all existing rows and re-scans.  Returns the number of
    /// tasks found.
    pub fn rebuild_db<B: Backend>(&self, backend: &mut B) -> (r: Result<usize, Failure>)
        ensures
            exists|depth: nat, fresh: Seq<Text>|
                all_uuids(fresh) && #[trigger] rebuild_within(
                    old(backend).world(),
                    self@,
                    depth,
                    fresh,
                ) == Some((final(backend).world(), outcome(r))),
    {
        let ghost w0 = backend.world();
        let ghost at_once = rebuild_within(w0, self@, 0, Seq::empty());
        assert(all_uuids(Seq::empty()));
        self.open_db(backend)?;
        let ghost w1 = backend.world();
        let done = self.rebuild_db_inner(backend);
        proof {
            let (depth, fresh) = choose|depth: nat, fresh: Seq<Text>|
                all_uuids(fresh) && #[trigger] fill_within(w1, self@, depth, fresh) == Some(
                    (backend.world(), outcome(done)),
                );
            let now = rebuild_within(w0, self@, depth, fresh);
        }
        done
    }

    /// Rebuild the database, which is open, from the tree.
    fn rebuild_db_inner<B: Backend>(&self, backend: &mut B) -> (r: Result<usize, Failure>)
        ensures
            exists|depth: nat, fresh: Seq<Text>|
                all_uuids(fresh) && #[trigger] fill_within(
                    old(backend).world(),
                    self@,
                    depth,
                    fresh,
                ) == Some((final(backend).world(), outcome(r))),
    {
        let ghost w0 = backend.world();
        let ghost at_once = fill_within(w0, self@, 0, Seq::empty());
        assert(all_uuids(Seq::empty()));
        let db = self.db_path();
        let none: [SqlValue; 0] = [];
        assert(none.deep_view() =~= Seq::<SqlView>::empty());
        backend.sqlite_execute(db.as_str(), CLEAR_TASKS, &none)?;
        let tasks_dir = self.tasks_dir();
        if !backend.path_exists(tasks_dir.as_str()) {
            return Ok(0);
        }
        let ghost w1 = backend.world();
        let mut found: Vec<FoundTask> = Vec::new();
        assert(found.deep_view() =~= Seq::<FoundView>::empty());
        let scanned = walk_tasks_dir(backend, tasks_dir.as_str(), None, &mut found);
        let ghost depth = choose|depth: nat|
            #[trigger] scan_within(w1, self@.tasks(), None, Seq::empty(), depth) == Some(
                (backend.world(), found.deep_view(), outcome(scanned)),
            );
        proof {
            subtasks_follow_their_task(w1, self@.tasks(), None, Seq::empty(), depth);
        }
        let fresh = fresh_uuids(found.len());
        let inserted = insert_tasks(backend, db.as_str(), &found, &fresh);
        proof {
            assert(fresh.deep_view().len() == found.deep_view().len());
            let now = fill_within(w0, self@, depth, fresh.deep_view());
        }
        inserted?;
        scanned?;
        Ok(found.len())
    }

    // ─── Git operations ──────────────────────────────────────────────

    /// Commit all changes in the board worktree.
    pub fn commit<B: Backend>(&self, backend: &mut B, message: &str) -> (r: Result<(), Failure>)
        ensures
            (final(backend).world(), outcome(r)) == commit_work_run(
                old(backend).world(),
                self@.worktree(),
                message@,
            ),
    {
        let wt = self.worktree_dir();
        commit_work(backend, wt.as_str(), message)
    }
}

/// Having the worktree of a board checked out.
pub open spec fn worktree_run(w: World, b: BoardView) -> (World, Outcome<()>) {
    let (w, there) = w.path_exists(b.worktree());
    if there {
        (w, Ok(()))
    } else {
        let (w, added) = w.git_in_bare(
            seq!["worktree"@, "add"@, b.worktree(), b.branch()],
            b.repo(),
            b.repo(),
        );
        match added {
            Err(e) => (w, Err(e)),
            Ok(_) => (w, Ok(())),
        }
    }
}

/// Create the schema of a board's database where it is missing.
pub fn create_board_schema<B: Backend>(backend: &mut B, db: &str) -> (r: Result<(), Failure>)
    ensures
        (final(backend).world(), outcome(r)) == old(backend).world().sqlite_execute(
            db@,
            BOARD_SCHEMA@,
            Seq::empty(),
        ),
{
    let none: [SqlValue; 0] = [];
    assert(none.deep_view() =~= Seq::<SqlView>::empty());
    backend.sqlite_execute(db, BOARD_SCHEMA, &none)
}

// ─── Board creation ──────────────────────────────────────────────────

/// Creating the branch of a board, with an empty tree.
pub open spec fn create_branch_run(w: World, b: BoardView) -> (World, Outcome<()>) {
    let repo = b.repo();
    let (w, tree) = w.git_in_bare(
        seq!["hash-object"@, "-t"@, "tree"@, "/dev/null"@],
        repo,
        repo,
    );
    match tree {
        Err(e) => (w, Err(e)),
        Ok(tree) => {
            let (w, commit) = w.git_in_bare(
                seq!["commit-tree"@, tree, "-m"@, "init board "@ + b.uuid],
                repo,
                repo,
            );
            match commit {
                Err(e) => (w, Err(e)),
                Ok(commit) => {
                    let (w, done) = w.git_in_bare(
                        seq!["update-ref"@, b.reference(), commit],
                        repo,
                        repo,
                    );
                    match done {
                        Err(e) => (w, Err(e)),
                        Ok(_) => (w, Ok(())),
                    }
                },
            }
        },
    }
}

/// Creating what the worktree of a new board holds, and committing it.
pub open spec fn furnish_run(w: World, b: BoardView) -> (World, Outcome<()>) {
    let (w, made) = w.create_dir_all(b.tasks());
    match made {
        Err(e) => (w, Err(e)),
        Ok(_) => {
            let (w, kept) = w.write(path_join(b.tasks(), ".gitkeep"@), Seq::empty());
            match kept {
                Err(e) => (w, Err(e)),
                Ok(_) => {
                    let (w, opened) = open_run(w, b);
                    match opened {
                        Err(e) => (w, Err(e)),
                        Ok(_) => commit_work_run(w, b.worktree(), "init board "@ + b.uuid),
                    }
                },
            }
        },
    }
}

/// Creating a board.
pub open spec fn create_run(w: World, base: Text, uuid: Text) -> (World, Outcome<BoardView>) {
    let b = BoardView { base, uuid };
    let (w, branch) = create_branch_run(w, b);
    match branch {
        Err(e) => (w, Err(e)),
        Ok(_) => {
            let (w, worktree) = worktree_run(w, b);
            match worktree {
                Err(e) => (w, Err(e)),
                Ok(_) => {
                    let (w, furnished) = furnish_run(w, b);
                    match furnished {
                        Err(e) => (w, Err(e)),
                        Ok(_) => (
                            w.note("[subcontext] Created board ("@ + uuid + ")"@),
                            Ok(b),
                        ),
                    }
                },
            }
        },
    }
}

/// Create the branch of a board, with an empty tree.
fn create_branch<B: Backend>(backend: &mut B, board: &Board) -> (r: Result<(), Failure>)
    ensures
        (final(backend).world(), outcome(r)) == create_branch_run(old(backend).world(), board@),
{
    let repo = board.repo_dir();
    let ref_name = board.ref_name();
    let empty_tree = run_git_in_bare(
        backend,
        &argv4("hash-object", "-t", "tree", "/dev/null"),
        repo.as_str(),
        repo.as_str(),
    )?;
    let message = cat("init board ", board.uuid.as_str());
    let commit = run_git_in_bare(
        backend,
        &argv4("commit-tree", empty_tree.as_str(), "-m", message.as_str()),
        repo.as_str(),
        repo.as_str(),
    )?;
    run_git_in_bare(
        backend,
        &argv3("update-ref", ref_name.as_str(), commit.as_str()),
        repo.as_str(),
        repo.as_str(),
    )?;
    Ok(())
}

/// Create a new board with the given UUID.
pub fn create_board_with<B: Backend>(backend: &mut B, subcontext_path: &str, uuid: &str) -> (r:
    Result<Board, Failure>)
    ensures
        (final(backend).world(), outcome(r)) == create_run(
            old(backend).world(),
            subcontext_path@,
            uuid@,
        ),
{
    let board = Board::new(subcontext_path.to_owned(), uuid.to_owned());

    // Create the branch with an empty tree.
    create_branch(backend, &board)?;

    // Check out the worktree.
    board.ensure_worktree(backend)?;

    // Create tasks/ directory and board.db.
    let tasks_dir = board.tasks_dir();
    backend.create_dir_all(tasks_dir.as_str())?;

    // Write a .gitkeep so the empty dir is kept by git.
    let keep = join_path(tasks_dir.as_str(), ".gitkeep");
    let none = String::new();
    assert(none@ =~= Seq::<char>::empty());
    write_text(backend, keep.as_str(), none.as_str())?;
    board.open_db(backend)?;

    // Initial commit.
    let message = cat("init board ", uuid);
    board.commit(backend, message.as_str())?;
    let line = cat3("[subcontext] Created board (", uuid, ")");
    backend.note(line.as_str());
    Ok(board)
}

/// Create a new board in the given subcontext.  Creates the branch, checks
/// out a worktree, initializes board.db and the tasks/ directory.
/// Returns the Board.
pub fn create_board<B: Backend>(backend: &mut B, subcontext_path: &str) -> (r: Result<
    Board,
    Failure,
>)
    ensures
        exists|uuid: Text|
            is_uuid(uuid) && (final(backend).world(), outcome(r)) == #[trigger] create_run(
                old(backend).world(),
                subcontext_path@,
                uuid,
            ),
{
    let uuid = fresh_uuid();
    create_board_with(backend, subcontext_path, uuid.as_str())
}

} // verus!
