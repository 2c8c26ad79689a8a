//! Backend abstraction over git, file system and process operations.
//!
//! All side effects (shelling out to git, reading and writing files) go through
//! the [`Backend`] trait. A program uses an implementation that acts on the
//! system; a test can swap in one that answers from a script.
//!
//! A contract over a backend speaks of its [`World`]: it says which requests are
//! made, in which order, and what is done with each answer. It claims nothing of
//! the answers.

use vstd::prelude::*;

use crate::failure::{outcome, Failure};
use crate::text::Text;
use crate::world::{
    Call, ExitView, ListingView, OutputView, ScopeView, SourceView, SqlView, StoreCall, TaskView,
    World,
};

verus! {

// ─── What goes out ───────────────────────────────────────────────────

/// A single git invocation: the args, the working directory, and any
/// environment variables to set or unset before running `git`.
pub struct GitInvocation<'a> {
    pub args: &'a [&'a str],
    pub cwd: &'a str,
    pub env_set: &'a [(&'a str, &'a str)],
    pub env_remove: &'a [&'a str],
}

impl<'a> GitInvocation<'a> {
    /// Simple invocation: just args + cwd, no env changes.
    pub fn new(args: &'a [&'a str], cwd: &'a str) -> (r: Self)
        ensures
            r.args.deep_view() == args.deep_view(),
            r.cwd@ == cwd@,
            r.env_set.deep_view() == Seq::<(Text, Text)>::empty(),
            r.env_remove.deep_view() == Seq::<Text>::empty(),
    {
        let r = GitInvocation { args, cwd, env_set: &[], env_remove: &[] };
        assert(r.env_set.deep_view() =~= Seq::<(Text, Text)>::empty());
        assert(r.env_remove.deep_view() =~= Seq::<Text>::empty());
        r
    }
}

/// A row of one argument.
pub fn argv1<'a>(a: &'a str) -> (r: [&'a str; 1])
    ensures
        r.deep_view() == seq![a@],
{
    let r = [a];
    assert(r.deep_view() =~= seq![a@]);
    r
}

/// A row of two arguments.
pub fn argv2<'a>(a: &'a str, b: &'a str) -> (r: [&'a str; 2])
    ensures
        r.deep_view() == seq![a@, b@],
{
    let r = [a, b];
    assert(r.deep_view() =~= seq![a@, b@]);
    r
}

/// A row of three arguments.
pub fn argv3<'a>(a: &'a str, b: &'a str, c: &'a str) -> (r: [&'a str; 3])
    ensures
        r.deep_view() == seq![a@, b@, c@],
{
    let r = [a, b, c];
    assert(r.deep_view() =~= seq![a@, b@, c@]);
    r
}

/// A row of four arguments.
pub fn argv4<'a>(a: &'a str, b: &'a str, c: &'a str, d: &'a str) -> (r: [&'a str; 4])
    ensures
        r.deep_view() == seq![a@, b@, c@, d@],
{
    let r = [a, b, c, d];
    assert(r.deep_view() =~= seq![a@, b@, c@, d@]);
    r
}

/// A row of five arguments.
pub fn argv5<'a>(a: &'a str, b: &'a str, c: &'a str, d: &'a str, e: &'a str) -> (r: [&'a str; 5])
    ensures
        r.deep_view() == seq![a@, b@, c@, d@, e@],
{
    let r = [a, b, c, d, e];
    assert(r.deep_view() =~= seq![a@, b@, c@, d@, e@]);
    r
}

/// A row of six arguments.
pub fn argv6<'a>(
    a: &'a str,
    b: &'a str,
    c: &'a str,
    d: &'a str,
    e: &'a str,
    f: &'a str,
) -> (r: [&'a str; 6])
    ensures
        r.deep_view() == seq![a@, b@, c@, d@, e@, f@],
{
    let r = [a, b, c, d, e, f];
    assert(r.deep_view() =~= seq![a@, b@, c@, d@, e@, f@]);
    r
}

/// Where the tasks of a subcontext are kept.
pub struct TaskScope {
    pub repo_dir: String,
    pub state_dir: String,
    pub dolt_dir: String,
    pub scratch_base: String,
    pub host_branch: String,
    pub project_uuid: String,
}

impl View for TaskScope {
    type V = ScopeView;

    open spec fn view(&self) -> ScopeView {
        ScopeView {
            repo_dir: self.repo_dir@,
            state_dir: self.state_dir@,
            dolt_dir: self.dolt_dir@,
            scratch_base: self.scratch_base@,
            host_branch: self.host_branch@,
            project_uuid: self.project_uuid@,
        }
    }
}

impl DeepView for TaskScope {
    type V = ScopeView;

    open spec fn deep_view(&self) -> ScopeView {
        self@
    }
}

/// What a new task is given. The importance is carried as text.
pub struct TaskFields {
    pub name: String,
    pub kind: Option<String>,
    pub status: Option<String>,
    pub description: Option<String>,
    pub deadline: Option<String>,
    pub importance: String,
}

impl View for TaskFields {
    type V = TaskView;

    open spec fn view(&self) -> TaskView {
        TaskView {
            name: self.name@,
            kind: self.kind.deep_view(),
            status: self.status.deep_view(),
            description: self.description.deep_view(),
            deadline: self.deadline.deep_view(),
            importance: self.importance@,
        }
    }
}

impl DeepView for TaskFields {
    type V = TaskView;

    open spec fn deep_view(&self) -> TaskView {
        self@
    }
}

/// The task that a shadow task stands for.
pub struct TaskSource {
    pub context_uuid: String,
    pub task_uuid: String,
    pub commit: String,
}

impl View for TaskSource {
    type V = SourceView;

    open spec fn view(&self) -> SourceView {
        SourceView {
            context_uuid: self.context_uuid@,
            task_uuid: self.task_uuid@,
            commit: self.commit@,
        }
    }
}

impl DeepView for TaskSource {
    type V = SourceView;

    open spec fn deep_view(&self) -> SourceView {
        self@
    }
}

/// A request to the task store whose answer is a text (empty where there is
/// nothing to say).
pub enum StoreRequest<'a> {
    /// Create the state branch of the subcontext of the repository at `root`.
    InitLocalState { root: &'a str },
    /// Create the state branch in `repo`, checked out at `state`, with its
    /// database at `dolt`.
    InitState { repo: &'a str, state: &'a str, dolt: &'a str },
    /// Record the object `uuid`.
    InsertObject { scope: &'a TaskScope, uuid: &'a str, kind: &'a str, commit: &'a str },
    /// Commit the database and record the commit on the state branch.
    CommitTracked { scope: &'a TaskScope, message: &'a str },
    /// Commit the state branch that is checked out at `state`.
    CommitState { state: &'a str, message: &'a str },
    /// Create the branch of the object `uuid`; the answer is its commit.
    CreateObjectBranch { scope: &'a TaskScope, uuid: &'a str, object_json: &'a str },
    /// Record `commit` as the current one of the object `uuid`.
    UpdateObjectCommit { scope: &'a TaskScope, uuid: &'a str, commit: &'a str },
    /// Render the deadlines of the tasks of the repository at `root`.
    Deadlines { root: &'a str, important_only: bool, horizon: Option<String> },
}

impl<'a> View for StoreRequest<'a> {
    type V = StoreCall;

    open spec fn view(&self) -> StoreCall {
        match self {
            StoreRequest::InitLocalState { root } => StoreCall::InitLocalState { root: root@ },
            StoreRequest::InitState { repo, state, dolt } => StoreCall::InitState {
                repo: repo@,
                state: state@,
                dolt: dolt@,
            },
            StoreRequest::InsertObject { scope, uuid, kind, commit } => StoreCall::InsertObject {
                scope: scope@,
                uuid: uuid@,
                kind: kind@,
                commit: commit@,
            },
            StoreRequest::CommitTracked { scope, message } => StoreCall::CommitTracked {
                scope: scope@,
                message: message@,
            },
            StoreRequest::CommitState { state, message } => StoreCall::CommitState {
                state: state@,
                message: message@,
            },
            StoreRequest::CreateObjectBranch { scope, uuid, object_json } =>
                StoreCall::CreateObjectBranch {
                scope: scope@,
                uuid: uuid@,
                object_json: object_json@,
            },
            StoreRequest::UpdateObjectCommit { scope, uuid, commit } =>
                StoreCall::UpdateObjectCommit { scope: scope@, uuid: uuid@, commit: commit@ },
            StoreRequest::Deadlines { root, important_only, horizon } => StoreCall::Deadlines {
                root: root@,
                important_only: *important_only,
                horizon: horizon.deep_view(),
            },
        }
    }
}

/// A parameter of a SQL statement. A real number is given by a text: it is the
/// number that the text is, or zero where it is none.
pub enum SqlValue {
    Null,
    Text(String),
    Real(String),
}

impl DeepView for SqlValue {
    type V = SqlView;

    open spec fn deep_view(&self) -> SqlView {
        match self {
            SqlValue::Null => SqlView::Null,
            SqlValue::Text(s) => SqlView::Text(s@),
            SqlValue::Real(s) => SqlView::Real(s@),
        }
    }
}

// ─── What comes back ─────────────────────────────────────────────────

/// How a program ended.
pub struct ExitReport {
    /// Did it succeed?
    pub success: bool,
    /// How its end is told, such as `exit status: 1`.
    pub text: String,
}

impl DeepView for ExitReport {
    type V = ExitView;

    open spec fn deep_view(&self) -> ExitView {
        ExitView { success: self.success, text: self.text@ }
    }
}

/// What a program printed. Bytes that are not UTF-8 are replaced.
pub struct OutputReport {
    pub success: bool,
    pub stdout: String,
    pub stderr: String,
}

impl DeepView for OutputReport {
    type V = OutputView;

    open spec fn deep_view(&self) -> OutputView {
        OutputView { success: self.success, stdout: self.stdout@, stderr: self.stderr@ }
    }
}

/// What was read of a directory.
pub struct Listing {
    /// The paths of what it holds.
    pub paths: Vec<String>,
    /// What went wrong, where an entry could not be read; the paths are those
    /// before it.
    pub broken: Option<Failure>,
}

impl DeepView for Listing {
    type V = ListingView;

    open spec fn deep_view(&self) -> ListingView {
        ListingView { paths: self.paths.deep_view(), broken: self.broken.deep_view() }
    }
}

// ─── The trait ───────────────────────────────────────────────────────

/// Abstraction over all git, file system and process side effects.
///
/// Keep the surface narrow and close to the underlying primitives: higher
/// level helpers live in `git` and `overlay` and are built on top of this
/// trait.
pub trait Backend: Sized {
    /// The requests made through this backend and the answers to come.
    spec fn world(&self) -> World;

    // ─── Git ─────────────────────────────────────────────────────────

    /// Run `git` with the given invocation. Returns stdout trimmed.
    /// Returns a failure if git exits with a non-zero status.
    fn git(&mut self, inv: &GitInvocation<'_>) -> (r: Result<String, Failure>)
        ensures
            (final(self).world(), outcome(r)) == old(self).world().git_env(
                inv.args.deep_view(),
                inv.cwd@,
                inv.env_set.deep_view(),
                inv.env_remove.deep_view(),
            ),
    ;

    // ─── High-level git helpers ──────────────────────────────────────
    //
    // These all shell out via [`Backend::git`] so a mock backend only needs
    // to override `git` to intercept every git call. Overriding the helpers
    // directly is also supported for finer-grained control.

    /// Run `git <args>` in `cwd` with no environment overrides.
    fn git_in(&mut self, cwd: &str, args: &[&str]) -> (r: Result<String, Failure>)
        ensures
            (final(self).world(), outcome(r)) == old(self).world().git(args.deep_view(), cwd@),
    {
        self.git(&GitInvocation::new(args, cwd))
    }

    /// `git init <path>`: initialize a non-bare repository at `path`.
    fn init(&mut self, cwd: &str, path: &str) -> (r: Result<String, Failure>)
        ensures
            (final(self).world(), outcome(r)) == old(self).world().git(
                seq!["init"@, path@],
                cwd@,
            ),
    {
        self.git_in(cwd, &argv2("init", path))
    }

    /// `git init --bare <path>`: initialize a bare repository at `path`.
    fn init_bare(&mut self, cwd: &str, path: &str) -> (r: Result<String, Failure>)
        ensures
            (final(self).world(), outcome(r)) == old(self).world().git(
                seq!["init"@, "--bare"@, path@],
                cwd@,
            ),
    {
        self.git_in(cwd, &argv3("init", "--bare", path))
    }

    /// `git clone <url> <dest>`.
    fn clone(&mut self, cwd: &str, url: &str, dest: &str) -> (r: Result<String, Failure>)
        ensures
            (final(self).world(), outcome(r)) == old(self).world().git(
                seq!["clone"@, url@, dest@],
                cwd@,
            ),
    {
        self.git_in(cwd, &argv3("clone", url, dest))
    }

    /// `git clone --bare <url> <dest>`.
    fn clone_bare(&mut self, cwd: &str, url: &str, dest: &str) -> (r: Result<String, Failure>)
        ensures
            (final(self).world(), outcome(r)) == old(self).world().git(
                seq!["clone"@, "--bare"@, url@, dest@],
                cwd@,
            ),
    {
        self.git_in(cwd, &argv4("clone", "--bare", url, dest))
    }

    /// `git worktree add <path> <reference>`.
    fn worktree_add(&mut self, cwd: &str, path: &str, reference: &str) -> (r: Result<
        String,
        Failure,
    >)
        ensures
            (final(self).world(), outcome(r)) == old(self).world().git(
                seq!["worktree"@, "add"@, path@, reference@],
                cwd@,
            ),
    {
        self.git_in(cwd, &argv4("worktree", "add", path, reference))
    }

    /// `git worktree remove <path>`.
    fn worktree_remove(&mut self, cwd: &str, path: &str) -> (r: Result<String, Failure>)
        ensures
            (final(self).world(), outcome(r)) == old(self).world().git(
                seq!["worktree"@, "remove"@, path@],
                cwd@,
            ),
    {
        self.git_in(cwd, &argv3("worktree", "remove", path))
    }

    /// `git add -A`: stage every change under `cwd`.
    fn add_all(&mut self, cwd: &str) -> (r: Result<String, Failure>)
        ensures
            (final(self).world(), outcome(r)) == old(self).world().git(
                seq!["add"@, "-A"@],
                cwd@,
            ),
    {
        self.git_in(cwd, &argv2("add", "-A"))
    }

    /// `git commit -m <message>`.
    fn commit(&mut self, cwd: &str, message: &str) -> (r: Result<String, Failure>)
        ensures
            (final(self).world(), outcome(r)) == old(self).world().git(
                seq!["commit"@, "-m"@, message@],
                cwd@,
            ),
    {
        self.git_in(cwd, &argv3("commit", "-m", message))
    }

    /// `git status --porcelain`.
    fn status_porcelain(&mut self, cwd: &str) -> (r: Result<String, Failure>)
        ensures
            (final(self).world(), outcome(r)) == old(self).world().git(
                seq!["status"@, "--porcelain"@],
                cwd@,
            ),
    {
        self.git_in(cwd, &argv2("status", "--porcelain"))
    }

    /// `git symbolic-ref --short HEAD`: the name of the current branch.
    /// Fails on detached HEAD.
    fn current_branch(&mut self, cwd: &str) -> (r: Result<String, Failure>)
        ensures
            (final(self).world(), outcome(r)) == old(self).world().git(
                seq!["symbolic-ref"@, "--short"@, "HEAD"@],
                cwd@,
            ),
    {
        self.git_in(cwd, &argv3("symbolic-ref", "--short", "HEAD"))
    }

    /// `git rev-parse <reference>`.
    fn rev_parse(&mut self, cwd: &str, reference: &str) -> (r: Result<String, Failure>)
        ensures
            (final(self).world(), outcome(r)) == old(self).world().git(
                seq!["rev-parse"@, reference@],
                cwd@,
            ),
    {
        self.git_in(cwd, &argv2("rev-parse", reference))
    }

    /// `git checkout <reference>`.
    fn checkout(&mut self, cwd: &str, reference: &str) -> (r: Result<String, Failure>)
        ensures
            (final(self).world(), outcome(r)) == old(self).world().git(
                seq!["checkout"@, reference@],
                cwd@,
            ),
    {
        self.git_in(cwd, &argv2("checkout", reference))
    }

    /// `git checkout -b <branch>`.
    fn checkout_new_branch(&mut self, cwd: &str, branch: &str) -> (r: Result<String, Failure>)
        ensures
            (final(self).world(), outcome(r)) == old(self).world().git(
                seq!["checkout"@, "-b"@, branch@],
                cwd@,
            ),
    {
        self.git_in(cwd, &argv3("checkout", "-b", branch))
    }

    // ─── Filesystem ──────────────────────────────────────────────────

    fn read_to_string(&mut self, path: &str) -> (r: Result<String, Failure>)
        ensures
            (final(self).world(), outcome(r)) == old(self).world().read(path@),
    ;

    fn write(&mut self, path: &str, contents: &[u8]) -> (r: Result<(), Failure>)
        ensures
            (final(self).world(), outcome(r)) == old(self).world().ask_done(
                Call::Write { path: path@, contents: contents@ },
            ),
    ;

    fn create_dir_all(&mut self, path: &str) -> (r: Result<(), Failure>)
        ensures
            (final(self).world(), outcome(r)) == old(self).world().create_dir_all(path@),
    ;

    fn copy(&mut self, from: &str, to: &str) -> (r: Result<u64, Failure>)
        ensures
            (final(self).world(), outcome(r)) == old(self).world().copy(from@, to@),
    ;

    fn remove_file(&mut self, path: &str) -> (r: Result<(), Failure>)
        ensures
            (final(self).world(), outcome(r)) == old(self).world().remove_file(path@),
    ;

    fn remove_dir(&mut self, path: &str) -> (r: Result<(), Failure>)
        ensures
            (final(self).world(), outcome(r)) == old(self).world().remove_dir(path@),
    ;

    fn remove_dir_all(&mut self, path: &str) -> (r: Result<(), Failure>)
        ensures
            (final(self).world(), outcome(r)) == old(self).world().remove_dir_all(path@),
    ;

    fn path_exists(&mut self, path: &str) -> (r: bool)
        ensures
            (final(self).world(), r) == old(self).world().path_exists(path@),
    ;

    fn is_file(&mut self, path: &str) -> (r: bool)
        ensures
            (final(self).world(), r) == old(self).world().is_file(path@),
    ;

    fn is_dir(&mut self, path: &str) -> (r: bool)
        ensures
            (final(self).world(), r) == old(self).world().is_dir(path@),
    ;

    fn canonicalize(&mut self, path: &str) -> (r: Result<String, Failure>)
        ensures
            (final(self).world(), outcome(r)) == old(self).world().canonicalize(path@),
    ;

    /// The paths of what the directory holds.
    fn read_dir(&mut self, path: &str) -> (r: Result<Vec<String>, Failure>)
        ensures
            (final(self).world(), outcome(r)) == old(self).world().read_dir(path@),
    ;

    /// The paths of what the directory holds, as far as it can be read. Fails
    /// only where it cannot be opened.
    fn list_dir(&mut self, path: &str) -> (r: Result<Listing, Failure>)
        ensures
            (final(self).world(), outcome(r)) == old(self).world().list_dir(path@),
    ;

    /// Unix file mode bits (from stat). 0 on non-unix.
    fn metadata_mode(&mut self, path: &str) -> (r: Result<u32, Failure>)
        ensures
            (final(self).world(), outcome(r)) == old(self).world().metadata_mode(path@),
    ;

    /// Set unix mode bits. No-op on non-unix.
    fn set_permissions_mode(&mut self, path: &str, mode: u32) -> (r: Result<(), Failure>)
        ensures
            (final(self).world(), outcome(r)) == old(self).world().set_mode(path@, mode),
    ;

    // ─── Process / environment ───────────────────────────────────────

    /// Absolute path to the currently running executable.
    fn current_exe(&mut self) -> (r: Result<String, Failure>)
        ensures
            (final(self).world(), outcome(r)) == old(self).world().current_exe(),
    ;

    /// Run an arbitrary executable (used to invoke backed-up user hooks).
    fn run_command(&mut self, program: &str, args: &[&str], cwd: &str) -> (r: Result<
        ExitReport,
        Failure,
    >)
        ensures
            (final(self).world(), outcome(r)) == old(self).world().run_command(
                program@,
                args.deep_view(),
                cwd@,
            ),
    ;

    /// Run an arbitrary executable and keep what it prints.
    fn capture(&mut self, program: &str, args: &[&str], cwd: Option<&str>) -> (r: Result<
        OutputReport,
        Failure,
    >)
        ensures
            (final(self).world(), outcome(r)) == old(self).world().capture(
                program@,
                args.deep_view(),
                cwd.deep_view(),
            ),
    ;

    // ─── Task store ──────────────────────────────────────────────────

    /// Have the task store do something.
    fn store(&mut self, request: &StoreRequest<'_>) -> (r: Result<String, Failure>)
        ensures
            (final(self).world(), outcome(r)) == old(self).world().store(request@),
    ;

    /// Have the task store add a task. Returns its UUID and its commit.
    fn add_task(
        &mut self,
        scope: &TaskScope,
        task: &TaskFields,
        source: Option<&TaskSource>,
    ) -> (r: Result<(String, String), Failure>)
        ensures
            (final(self).world(), outcome(r)) == old(self).world().add_task(
                scope@,
                task@,
                source.deep_view(),
            ),
    ;

    // ─── SQLite ──────────────────────────────────────────────────────

    /// Run a statement on the SQLite database at a path, which is created where
    /// it is missing.
    fn sqlite_execute(&mut self, db: &str, sql: &str, params: &[SqlValue]) -> (r: Result<
        (),
        Failure,
    >)
        ensures
            (final(self).world(), outcome(r)) == old(self).world().sqlite_execute(
                db@,
                sql@,
                params.deep_view(),
            ),
    ;

    /// The first column of the rows of a query on the SQLite database at a path,
    /// as text. Rows in which it is no text and no integer are left out.
    fn sqlite_texts(&mut self, db: &str, sql: &str) -> (r: Result<Vec<String>, Failure>)
        ensures
            (final(self).world(), outcome(r)) == old(self).world().sqlite_texts(db@, sql@),
    ;

    // ─── User ────────────────────────────────────────────────────────

    /// Show a line to the user, beside the output proper.
    fn note(&mut self, line: &str)
        ensures
            final(self).world() == old(self).world().note(line@),
    ;
}

/// Write a text to a file.
pub fn write_text<B: Backend>(backend: &mut B, path: &str, contents: &str) -> (r: Result<
    (),
    Failure,
>)
    ensures
        (final(backend).world(), outcome(r)) == old(backend).world().write(path@, contents@),
{
    backend.write(path, contents.as_bytes())
}

} // verus!
