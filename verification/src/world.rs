//! The world outside the library, as the library's contracts see it.
//!
//! Everything that the library does outside itself goes through a
//! [`Backend`](crate::backend::Backend). A [`World`] is the account of that: the
//! requests made so far, in order, and what the outside answers to each. What it
//! answers is arbitrary, so a contract over a `World` speaks of every way in
//! which the outside can behave.

use vstd::prelude::*;

use crate::failure::Outcome;
use crate::text::Text;

verus! {

/// A request to the outside.
pub enum Call {
    /// Run `git`.
    Git {
        args: Seq<Text>,
        cwd: Text,
        env_set: Seq<(Text, Text)>,
        env_remove: Seq<Text>,
    },
    /// Read a file.
    Read(Text),
    /// Write a file.
    Write { path: Text, contents: Seq<u8> },
    /// Create a directory and what leads to it.
    CreateDirAll(Text),
    /// Copy a file.
    Copy { from: Text, to: Text },
    /// Remove a file.
    RemoveFile(Text),
    /// Remove an empty directory.
    RemoveDir(Text),
    /// Remove a directory with all that it holds.
    RemoveDirAll(Text),
    /// Ask whether there is anything at a path.
    Exists(Text),
    /// Ask whether there is a file at a path.
    IsFile(Text),
    /// Ask whether there is a directory at a path.
    IsDir(Text),
    /// Resolve a path to its absolute form without links.
    Canonicalize(Text),
    /// List a directory.
    ReadDir(Text),
    /// List a directory as far as it can be read.
    ListDir(Text),
    /// Read the mode bits of a file.
    Mode(Text),
    /// Set the mode bits of a file.
    SetMode { path: Text, mode: u32 },
    /// Ask for the path of the running program.
    CurrentExe,
    /// Run a program and wait for it.
    Run { program: Text, args: Seq<Text>, cwd: Text },
    /// Run a program and keep what it prints.
    Capture { program: Text, args: Seq<Text>, dir: Option<Text> },
    /// Have the task store do something.
    Store(StoreCall),
    /// Run a statement on a SQLite database.
    SqliteExecute { db: Text, sql: Text, params: Seq<SqlView> },
    /// Read the first column of the rows of a query on a SQLite database.
    SqliteTexts { db: Text, sql: Text },
    /// Show a line to the user.
    Note(Text),
}

/// A parameter of a SQL statement. A real number is given by a text: it is the
/// number that the text is, or zero where it is none.
pub enum SqlView {
    Null,
    Text(Text),
    Real(Text),
}

/// Where the tasks of a subcontext are kept.
pub struct ScopeView {
    pub repo_dir: Text,
    pub state_dir: Text,
    pub dolt_dir: Text,
    pub scratch_base: Text,
    pub host_branch: Text,
    pub project_uuid: Text,
}

/// What a new task is given.
pub struct TaskView {
    pub name: Text,
    pub kind: Option<Text>,
    pub status: Option<Text>,
    pub description: Option<Text>,
    pub deadline: Option<Text>,
    pub importance: Text,
}

/// The task that a shadow task stands for: its subcontext, its UUID and its
/// commit.
pub struct SourceView {
    pub context_uuid: Text,
    pub task_uuid: Text,
    pub commit: Text,
}

/// A request to the task store.
pub enum StoreCall {
    /// Create the state branch of the subcontext of a repository.
    InitLocalState { root: Text },
    /// Create a state branch and its database.
    InitState { repo: Text, state: Text, dolt: Text },
    /// Record an object.
    InsertObject { scope: ScopeView, uuid: Text, kind: Text, commit: Text },
    /// Commit the database and record the commit on the state branch.
    CommitTracked { scope: ScopeView, message: Text },
    /// Commit a state branch.
    CommitState { state: Text, message: Text },
    /// Create the branch of an object.
    CreateObjectBranch { scope: ScopeView, uuid: Text, object_json: Text },
    /// Record the current commit of an object.
    UpdateObjectCommit { scope: ScopeView, uuid: Text, commit: Text },
    /// Add a task.
    AddTask { scope: ScopeView, task: TaskView, source: Option<SourceView> },
    /// Render the deadlines of the tasks of a repository.
    Deadlines { root: Text, important_only: bool, horizon: Option<Text> },
}

/// How a program ended: did it succeed, and how that is told.
pub struct ExitView {
    pub success: bool,
    pub text: Text,
}

/// What a program printed.
pub struct OutputView {
    pub success: bool,
    pub stdout: Text,
    pub stderr: Text,
}

/// What was read of a directory: the paths of what it holds, and what went wrong
/// where the reading broke off.
pub struct ListingView {
    pub paths: Seq<Text>,
    pub broken: Option<Seq<Text>>,
}

/// The requests made so far, and what the outside answers: the `n`-th request is
/// answered by the `n`-th item of the row of answers that has its type.
pub struct World {
    pub calls: Seq<Call>,
    pub text: spec_fn(nat) -> Outcome<Text>,
    pub done: spec_fn(nat) -> Outcome<()>,
    pub size: spec_fn(nat) -> Outcome<u64>,
    pub flag: spec_fn(nat) -> bool,
    pub names: spec_fn(nat) -> Outcome<Seq<Text>>,
    pub listing: spec_fn(nat) -> Outcome<ListingView>,
    pub mode: spec_fn(nat) -> Outcome<u32>,
    pub exit: spec_fn(nat) -> Outcome<ExitView>,
    pub output: spec_fn(nat) -> Outcome<OutputView>,
    pub pair: spec_fn(nat) -> Outcome<(Text, Text)>,
}

impl World {
    /// The world after one more request.
    pub open spec fn asked(self, call: Call) -> World {
        World { calls: self.calls.push(call), ..self }
    }

    /// The request `call`, answered by a text.
    pub open spec fn ask_text(self, call: Call) -> (World, Outcome<Text>) {
        (self.asked(call), (self.text)(self.calls.len()))
    }

    /// The request `call`, answered by success or failure.
    pub open spec fn ask_done(self, call: Call) -> (World, Outcome<()>) {
        (self.asked(call), (self.done)(self.calls.len()))
    }

    /// The request `call`, answered by yes or no.
    pub open spec fn ask_flag(self, call: Call) -> (World, bool) {
        (self.asked(call), (self.flag)(self.calls.len()))
    }

    /// Run `git` with an environment.
    pub open spec fn git_env(
        self,
        args: Seq<Text>,
        cwd: Text,
        env_set: Seq<(Text, Text)>,
        env_remove: Seq<Text>,
    ) -> (World, Outcome<Text>) {
        self.ask_text(Call::Git { args, cwd, env_set, env_remove })
    }

    /// Run `git` in a directory.
    pub open spec fn git(self, args: Seq<Text>, cwd: Text) -> (World, Outcome<Text>) {
        self.git_env(args, cwd, Seq::empty(), Seq::empty())
    }

    /// Read a file.
    pub open spec fn read(self, path: Text) -> (World, Outcome<Text>) {
        self.ask_text(Call::Read(path))
    }

    /// Write a text to a file.
    pub open spec fn write(self, path: Text, contents: Text) -> (World, Outcome<()>) {
        self.ask_done(Call::Write { path, contents: vstd::utf8::encode_utf8(contents) })
    }

    /// Create a directory and what leads to it.
    pub open spec fn create_dir_all(self, path: Text) -> (World, Outcome<()>) {
        self.ask_done(Call::CreateDirAll(path))
    }

    /// Copy a file.
    pub open spec fn copy(self, from: Text, to: Text) -> (World, Outcome<u64>) {
        (self.asked(Call::Copy { from, to }), (self.size)(self.calls.len()))
    }

    /// Remove a file.
    pub open spec fn remove_file(self, path: Text) -> (World, Outcome<()>) {
        self.ask_done(Call::RemoveFile(path))
    }

    /// Remove an empty directory.
    pub open spec fn remove_dir(self, path: Text) -> (World, Outcome<()>) {
        self.ask_done(Call::RemoveDir(path))
    }

    /// Remove a directory with all that it holds.
    pub open spec fn remove_dir_all(self, path: Text) -> (World, Outcome<()>) {
        self.ask_done(Call::RemoveDirAll(path))
    }

    /// Is there anything at the path?
    pub open spec fn path_exists(self, path: Text) -> (World, bool) {
        self.ask_flag(Call::Exists(path))
    }

    /// Is there a file at the path?
    pub open spec fn is_file(self, path: Text) -> (World, bool) {
        self.ask_flag(Call::IsFile(path))
    }

    /// Is there a directory at the path?
    pub open spec fn is_dir(self, path: Text) -> (World, bool) {
        self.ask_flag(Call::IsDir(path))
    }

    /// Resolve a path.
    pub open spec fn canonicalize(self, path: Text) -> (World, Outcome<Text>) {
        self.ask_text(Call::Canonicalize(path))
    }

    /// List a directory.
    pub open spec fn read_dir(self, path: Text) -> (World, Outcome<Seq<Text>>) {
        (self.asked(Call::ReadDir(path)), (self.names)(self.calls.len()))
    }

    /// List a directory as far as it can be read.
    pub open spec fn list_dir(self, path: Text) -> (World, Outcome<ListingView>) {
        (self.asked(Call::ListDir(path)), (self.listing)(self.calls.len()))
    }

    /// Read mode bits.
    pub open spec fn metadata_mode(self, path: Text) -> (World, Outcome<u32>) {
        (self.asked(Call::Mode(path)), (self.mode)(self.calls.len()))
    }

    /// Set mode bits.
    pub open spec fn set_mode(self, path: Text, mode: u32) -> (World, Outcome<()>) {
        self.ask_done(Call::SetMode { path, mode })
    }

    /// The path of the running program.
    pub open spec fn current_exe(self) -> (World, Outcome<Text>) {
        self.ask_text(Call::CurrentExe)
    }

    /// Run a program.
    pub open spec fn run_command(self, program: Text, args: Seq<Text>, cwd: Text) -> (
        World,
        Outcome<ExitView>,
    ) {
        (self.asked(Call::Run { program, args, cwd }), (self.exit)(self.calls.len()))
    }

    /// Run a program and keep what it prints.
    pub open spec fn capture(self, program: Text, args: Seq<Text>, dir: Option<Text>) -> (
        World,
        Outcome<OutputView>,
    ) {
        (self.asked(Call::Capture { program, args, dir }), (self.output)(self.calls.len()))
    }

    /// Have the task store do something.
    pub open spec fn store(self, call: StoreCall) -> (World, Outcome<Text>) {
        self.ask_text(Call::Store(call))
    }

    /// Have the task store add a task; the answer is its UUID and its commit.
    pub open spec fn add_task(
        self,
        scope: ScopeView,
        task: TaskView,
        source: Option<SourceView>,
    ) -> (World, Outcome<(Text, Text)>) {
        (
            self.asked(Call::Store(StoreCall::AddTask { scope, task, source })),
            (self.pair)(self.calls.len()),
        )
    }

    /// Run a statement on a SQLite database.
    pub open spec fn sqlite_execute(self, db: Text, sql: Text, params: Seq<SqlView>) -> (
        World,
        Outcome<()>,
    ) {
        self.ask_done(Call::SqliteExecute { db, sql, params })
    }

    /// Read the first column of the rows of a query on a SQLite database.
    pub open spec fn sqlite_texts(self, db: Text, sql: Text) -> (World, Outcome<Seq<Text>>) {
        (self.asked(Call::SqliteTexts { db, sql }), (self.names)(self.calls.len()))
    }

    /// Show a line to the user.
    pub open spec fn note(self, line: Text) -> World {
        self.asked(Call::Note(line))
    }
}

} // verus!
