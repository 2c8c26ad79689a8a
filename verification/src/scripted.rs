//! A backend that answers from a script and keeps the requests it got.
//!
//! It touches nothing outside: the `n`-th request gets the `n`-th answer of the
//! script. Where the script has no answer of the right type there, the answer is
//! a failure, or no.

use vstd::prelude::*;

use crate::backend::{
    Backend, ExitReport, GitInvocation, Listing, OutputReport, SqlValue, StoreRequest, TaskFields,
    TaskScope, TaskSource,
};
use crate::failure::{fail, failed, outcome, Failure, Outcome};
use crate::text::Text;
use crate::world::{Call, ExitView, ListingView, OutputView, StoreCall, World};

verus! {

// ─── Copies ──────────────────────────────────────────────────────────

/// A copy of a row of texts.
fn copy_texts(texts: &[&str]) -> (r: Vec<String>)
    ensures
        r.deep_view() == texts.deep_view(),
{
    let mut out: Vec<String> = Vec::new();
    let mut i: usize = 0;
    while i < texts.len()
        invariant
            i <= texts@.len(),
            out@.len() == i,
            forall|j: int| 0 <= j < i ==> (#[trigger] out@[j])@ == texts@[j]@,
        decreases texts@.len() - i,
    {
        out.push(texts[i].to_owned());
        i = i + 1;
    }
    assert(out.deep_view() =~= texts.deep_view());
    out
}

/// A copy of a row of strings.
fn copy_strings(texts: &Vec<String>) -> (r: Vec<String>)
    ensures
        r.deep_view() == texts.deep_view(),
{
    let mut out: Vec<String> = Vec::new();
    let mut i: usize = 0;
    while i < texts.len()
        invariant
            i <= texts@.len(),
            out@.len() == i,
            forall|j: int| 0 <= j < i ==> (#[trigger] out@[j])@ == texts@[j]@,
        decreases texts@.len() - i,
    {
        out.push(texts[i].clone());
        i = i + 1;
    }
    assert(out.deep_view() =~= texts.deep_view());
    out
}

/// A copy of a row of pairs.
fn copy_pairs(pairs: &[(&str, &str)]) -> (r: Vec<(String, String)>)
    ensures
        r.deep_view() == pairs.deep_view(),
{
    let mut out: Vec<(String, String)> = Vec::new();
    let mut i: usize = 0;
    while i < pairs.len()
        invariant
            i <= pairs@.len(),
            out@.len() == i,
            forall|j: int|
                0 <= j < i ==> (#[trigger] out@[j]).0@ == pairs@[j].0@ && out@[j].1@
                    == pairs@[j].1@,
        decreases pairs@.len() - i,
    {
        out.push((pairs[i].0.to_owned(), pairs[i].1.to_owned()));
        i = i + 1;
    }
    assert(out.deep_view() =~= pairs.deep_view());
    out
}

/// A copy of a row of bytes.
fn copy_bytes(bytes: &[u8]) -> (r: Vec<u8>)
    ensures
        r@ == bytes@,
{
    let mut out: Vec<u8> = Vec::new();
    let mut i: usize = 0;
    while i < bytes.len()
        invariant
            i <= bytes@.len(),
            out@ == bytes@.take(i as int),
        decreases bytes@.len() - i,
    {
        out.push(bytes[i]);
        assert(bytes@.take(i + 1) =~= bytes@.take(i as int).push(bytes@[i as int]));
        i = i + 1;
    }
    assert(bytes@.take(bytes@.len() as int) =~= bytes@);
    out
}

/// A copy of what may be a string.
fn copy_option(text: &Option<String>) -> (r: Option<String>)
    ensures
        r.deep_view() == text.deep_view(),
{
    match text {
        Some(text) => Some(text.clone()),
        None => None,
    }
}

/// A copy of a failure.
fn copy_failure(failure: &Failure) -> (r: Failure)
    ensures
        r@ == failure@,
{
    Failure { messages: copy_strings(&failure.messages) }
}

/// A copy of a scope.
fn copy_scope(scope: &TaskScope) -> (r: TaskScope)
    ensures
        r@ == scope@,
{
    TaskScope {
        repo_dir: scope.repo_dir.clone(),
        state_dir: scope.state_dir.clone(),
        dolt_dir: scope.dolt_dir.clone(),
        scratch_base: scope.scratch_base.clone(),
        host_branch: scope.host_branch.clone(),
        project_uuid: scope.project_uuid.clone(),
    }
}

/// A copy of the fields of a task.
fn copy_task(task: &TaskFields) -> (r: TaskFields)
    ensures
        r@ == task@,
{
    TaskFields {
        name: task.name.clone(),
        kind: copy_option(&task.kind),
        status: copy_option(&task.status),
        description: copy_option(&task.description),
        deadline: copy_option(&task.deadline),
        importance: task.importance.clone(),
    }
}

/// A copy of the source of a task.
fn copy_source(source: Option<&TaskSource>) -> (r: Option<TaskSource>)
    ensures
        r.deep_view() == source.deep_view(),
{
    match source {
        Some(source) => Some(
            TaskSource {
                context_uuid: source.context_uuid.clone(),
                task_uuid: source.task_uuid.clone(),
                commit: source.commit.clone(),
            },
        ),
        None => None,
    }
}

/// A copy of the parameters of a statement.
fn copy_params(params: &[SqlValue]) -> (r: Vec<SqlValue>)
    ensures
        r.deep_view() == params.deep_view(),
{
    let mut out: Vec<SqlValue> = Vec::new();
    let mut i: usize = 0;
    while i < params.len()
        invariant
            i <= params@.len(),
            out@.len() == i,
            forall|j: int|
                0 <= j < i ==> (#[trigger] out@[j]).deep_view() == params@[j].deep_view(),
        decreases params@.len() - i,
    {
        let copy = match &params[i] {
            SqlValue::Null => SqlValue::Null,
            SqlValue::Text(text) => SqlValue::Text(text.clone()),
            SqlValue::Real(text) => SqlValue::Real(text.clone()),
        };
        out.push(copy);
        i = i + 1;
    }
    assert(out.deep_view() =~= params.deep_view());
    out
}

// ─── Requests ────────────────────────────────────────────────────────

/// A request to the task store that a scripted backend got.
pub enum Stored {
    InitLocalState { root: String },
    InitState { repo: String, state: String, dolt: String },
    InsertObject { scope: TaskScope, uuid: String, kind: String, commit: String },
    CommitTracked { scope: TaskScope, message: String },
    CommitState { state: String, message: String },
    CreateObjectBranch { scope: TaskScope, uuid: String, object_json: String },
    UpdateObjectCommit { scope: TaskScope, uuid: String, commit: String },
    AddTask { scope: TaskScope, task: TaskFields, source: Option<TaskSource> },
    Deadlines { root: String, important_only: bool, horizon: Option<String> },
}

impl View for Stored {
    type V = StoreCall;

    open spec fn view(&self) -> StoreCall {
        match self {
            Stored::InitLocalState { root } => StoreCall::InitLocalState { root: root@ },
            Stored::InitState { repo, state, dolt } => StoreCall::InitState {
                repo: repo@,
                state: state@,
                dolt: dolt@,
            },
            Stored::InsertObject { scope, uuid, kind, commit } => StoreCall::InsertObject {
                scope: scope@,
                uuid: uuid@,
                kind: kind@,
                commit: commit@,
            },
            Stored::CommitTracked { scope, message } => StoreCall::CommitTracked {
                scope: scope@,
                message: message@,
            },
            Stored::CommitState { state, message } => StoreCall::CommitState {
                state: state@,
                message: message@,
            },
            Stored::CreateObjectBranch { scope, uuid, object_json } =>
                StoreCall::CreateObjectBranch {
                scope: scope@,
                uuid: uuid@,
                object_json: object_json@,
            },
            Stored::UpdateObjectCommit { scope, uuid, commit } => StoreCall::UpdateObjectCommit {
                scope: scope@,
                uuid: uuid@,
                commit: commit@,
            },
            Stored::AddTask { scope, task, source } => StoreCall::AddTask {
                scope: scope@,
                task: task@,
                source: source.deep_view(),
            },
            Stored::Deadlines { root, important_only, horizon } => StoreCall::Deadlines {
                root: root@,
                important_only: *important_only,
                horizon: horizon.deep_view(),
            },
        }
    }
}

/// A request that a scripted backend got.
pub enum Request {
    Git {
        args: Vec<String>,
        cwd: String,
        env_set: Vec<(String, String)>,
        env_remove: Vec<String>,
    },
    Read(String),
    Write { path: String, contents: Vec<u8> },
    CreateDirAll(String),
    Copy { from: String, to: String },
    RemoveFile(String),
    RemoveDir(String),
    RemoveDirAll(String),
    Exists(String),
    IsFile(String),
    IsDir(String),
    Canonicalize(String),
    ReadDir(String),
    ListDir(String),
    Mode(String),
    SetMode { path: String, mode: u32 },
    CurrentExe,
    Run { program: String, args: Vec<String>, cwd: String },
    Capture { program: String, args: Vec<String>, dir: Option<String> },
    Store(Stored),
    SqliteExecute { db: String, sql: String, params: Vec<SqlValue> },
    SqliteTexts { db: String, sql: String },
    Note(String),
}

impl DeepView for Request {
    type V = Call;

    open spec fn deep_view(&self) -> Call {
        match self {
            Request::Git { args, cwd, env_set, env_remove } => Call::Git {
                args: args.deep_view(),
                cwd: cwd@,
                env_set: env_set.deep_view(),
                env_remove: env_remove.deep_view(),
            },
            Request::Read(path) => Call::Read(path@),
            Request::Write { path, contents } => Call::Write { path: path@, contents: contents@ },
            Request::CreateDirAll(path) => Call::CreateDirAll(path@),
            Request::Copy { from, to } => Call::Copy { from: from@, to: to@ },
            Request::RemoveFile(path) => Call::RemoveFile(path@),
            Request::RemoveDir(path) => Call::RemoveDir(path@),
            Request::RemoveDirAll(path) => Call::RemoveDirAll(path@),
            Request::Exists(path) => Call::Exists(path@),
            Request::IsFile(path) => Call::IsFile(path@),
            Request::IsDir(path) => Call::IsDir(path@),
            Request::Canonicalize(path) => Call::Canonicalize(path@),
            Request::ReadDir(path) => Call::ReadDir(path@),
            Request::ListDir(path) => Call::ListDir(path@),
            Request::Mode(path) => Call::Mode(path@),
            Request::SetMode { path, mode } => Call::SetMode { path: path@, mode: *mode },
            Request::CurrentExe => Call::CurrentExe,
            Request::Run { program, args, cwd } => Call::Run {
                program: program@,
                args: args.deep_view(),
                cwd: cwd@,
            },
            Request::Capture { program, args, dir } => Call::Capture {
                program: program@,
                args: args.deep_view(),
                dir: dir.deep_view(),
            },
            Request::Store(stored) => Call::Store(stored@),
            Request::SqliteExecute { db, sql, params } => Call::SqliteExecute {
                db: db@,
                sql: sql@,
                params: params.deep_view(),
            },
            Request::SqliteTexts { db, sql } => Call::SqliteTexts { db: db@, sql: sql@ },
            Request::Note(line) => Call::Note(line@),
        }
    }
}

/// A request to the task store, kept.
fn kept(request: &StoreRequest<'_>) -> (r: Stored)
    ensures
        r@ == request@,
{
    match request {
        StoreRequest::InitLocalState { root } => Stored::InitLocalState {
            root: (*root).to_owned(),
        },
        StoreRequest::InitState { repo, state, dolt } => Stored::InitState {
            repo: (*repo).to_owned(),
            state: (*state).to_owned(),
            dolt: (*dolt).to_owned(),
        },
        StoreRequest::InsertObject { scope, uuid, kind, commit } => Stored::InsertObject {
            scope: copy_scope(scope),
            uuid: (*uuid).to_owned(),
            kind: (*kind).to_owned(),
            commit: (*commit).to_owned(),
        },
        StoreRequest::CommitTracked { scope, message } => Stored::CommitTracked {
            scope: copy_scope(scope),
            message: (*message).to_owned(),
        },
        StoreRequest::CommitState { state, message } => Stored::CommitState {
            state: (*state).to_owned(),
            message: (*message).to_owned(),
        },
        StoreRequest::CreateObjectBranch { scope, uuid, object_json } =>
            Stored::CreateObjectBranch {
            scope: copy_scope(scope),
            uuid: (*uuid).to_owned(),
            object_json: (*object_json).to_owned(),
        },
        StoreRequest::UpdateObjectCommit { scope, uuid, commit } => Stored::UpdateObjectCommit {
            scope: copy_scope(scope),
            uuid: (*uuid).to_owned(),
            commit: (*commit).to_owned(),
        },
        StoreRequest::Deadlines { root, important_only, horizon } => Stored::Deadlines {
            root: (*root).to_owned(),
            important_only: *important_only,
            horizon: copy_option(horizon),
        },
    }
}

// ─── Answers ─────────────────────────────────────────────────────────

/// An answer of the script.
pub enum Answer {
    Text(Result<String, Failure>),
    Done(Result<(), Failure>),
    Size(Result<u64, Failure>),
    Flag(bool),
    Names(Result<Vec<String>, Failure>),
    Listing(Result<Listing, Failure>),
    Mode(Result<u32, Failure>),
    Exit(Result<ExitReport, Failure>),
    Output(Result<OutputReport, Failure>),
    Pair(Result<(String, String), Failure>),
}

/// The failure where the script has no answer.
pub open spec fn unscripted() -> Seq<Text> {
    failed("the script has no answer here"@)
}

pub open spec fn text_at(script: Seq<Answer>, n: nat) -> Outcome<Text> {
    match script[n as int] {
        Answer::Text(r) if n < script.len() => outcome(r),
        _ => Err(unscripted()),
    }
}

pub open spec fn done_at(script: Seq<Answer>, n: nat) -> Outcome<()> {
    match script[n as int] {
        Answer::Done(r) if n < script.len() => outcome(r),
        _ => Err(unscripted()),
    }
}

pub open spec fn size_at(script: Seq<Answer>, n: nat) -> Outcome<u64> {
    match script[n as int] {
        Answer::Size(r) if n < script.len() => outcome(r),
        _ => Err(unscripted()),
    }
}

pub open spec fn flag_at(script: Seq<Answer>, n: nat) -> bool {
    match script[n as int] {
        Answer::Flag(b) if n < script.len() => b,
        _ => false,
    }
}

pub open spec fn names_at(script: Seq<Answer>, n: nat) -> Outcome<Seq<Text>> {
    match script[n as int] {
        Answer::Names(r) if n < script.len() => outcome(r),
        _ => Err(unscripted()),
    }
}

pub open spec fn listing_at(script: Seq<Answer>, n: nat) -> Outcome<ListingView> {
    match script[n as int] {
        Answer::Listing(r) if n < script.len() => outcome(r),
        _ => Err(unscripted()),
    }
}

pub open spec fn mode_at(script: Seq<Answer>, n: nat) -> Outcome<u32> {
    match script[n as int] {
        Answer::Mode(r) if n < script.len() => outcome(r),
        _ => Err(unscripted()),
    }
}

pub open spec fn exit_at(script: Seq<Answer>, n: nat) -> Outcome<ExitView> {
    match script[n as int] {
        Answer::Exit(r) if n < script.len() => outcome(r),
        _ => Err(unscripted()),
    }
}

pub open spec fn output_at(script: Seq<Answer>, n: nat) -> Outcome<OutputView> {
    match script[n as int] {
        Answer::Output(r) if n < script.len() => outcome(r),
        _ => Err(unscripted()),
    }
}

pub open spec fn pair_at(script: Seq<Answer>, n: nat) -> Outcome<(Text, Text)> {
    match script[n as int] {
        Answer::Pair(r) if n < script.len() => outcome(r),
        _ => Err(unscripted()),
    }
}

/// A backend that answers from a script.
pub struct Scripted {
    /// The answers, in the order of the requests.
    pub script: Vec<Answer>,
    /// The requests so far.
    pub requests: Vec<Request>,
}

impl Scripted {
    /// The requests so far and the answers of the script.
    pub open spec fn account(self) -> World {
        let script = self.script@;
        World {
            calls: self.requests.deep_view(),
            text: |n: nat| text_at(script, n),
            done: |n: nat| done_at(script, n),
            size: |n: nat| size_at(script, n),
            flag: |n: nat| flag_at(script, n),
            names: |n: nat| names_at(script, n),
            listing: |n: nat| listing_at(script, n),
            mode: |n: nat| mode_at(script, n),
            exit: |n: nat| exit_at(script, n),
            output: |n: nat| output_at(script, n),
            pair: |n: nat| pair_at(script, n),
        }
    }

    /// A backend that has got no request yet.
    pub fn new(script: Vec<Answer>) -> (r: Self)
        ensures
            r.script@ == script@,
            r.requests@.len() == 0,
    {
        Scripted { script, requests: Vec::new() }
    }

    /// Keep a request; the number of those before it.
    fn keep(&mut self, request: Request) -> (n: usize)
        ensures
            n == old(self).requests@.len(),
            final(self).script == old(self).script,
            final(self).account() == old(self).account().asked(request.deep_view()),
    {
        let ghost before = self.requests.deep_view();
        let ghost call = request.deep_view();
        let n: usize = self.requests.len();
        self.requests.push(request);
        assert(self.requests.deep_view() =~= before.push(call));
        n
    }

    /// Keep a request that is answered by a text.
    fn answer_text(&mut self, request: Request) -> (r: Result<String, Failure>)
        ensures
            (final(self).account(), outcome(r)) == old(self).account().ask_text(
                request.deep_view(),
            ),
    {
        let n = self.keep(request);
        if n < self.script.len() {
            if let Answer::Text(r) = &self.script[n] {
                return match r {
                    Ok(text) => Ok(text.clone()),
                    Err(e) => Err(copy_failure(e)),
                };
            }
        }
        Err(fail("the script has no answer here"))
    }

    /// Keep a request that is answered by success or failure.
    fn answer_done(&mut self, request: Request) -> (r: Result<(), Failure>)
        ensures
            (final(self).account(), outcome(r)) == old(self).account().ask_done(
                request.deep_view(),
            ),
    {
        let n = self.keep(request);
        if n < self.script.len() {
            if let Answer::Done(r) = &self.script[n] {
                return match r {
                    Ok(_) => Ok(()),
                    Err(e) => Err(copy_failure(e)),
                };
            }
        }
        Err(fail("the script has no answer here"))
    }

    /// Keep a request that is answered by yes or no.
    fn answer_flag(&mut self, request: Request) -> (r: bool)
        ensures
            (final(self).account(), r) == old(self).account().ask_flag(request.deep_view()),
    {
        let n = self.keep(request);
        if n < self.script.len() {
            if let Answer::Flag(b) = &self.script[n] {
                return *b;
            }
        }
        false
    }

    /// Keep a request that is answered by a row of texts.
    fn answer_names(&mut self, request: Request) -> (r: Result<Vec<String>, Failure>)
        ensures
            final(self).account() == old(self).account().asked(request.deep_view()),
            outcome(r) == (old(self).account().names)(old(self).account().calls.len()),
    {
        let n = self.keep(request);
        if n < self.script.len() {
            if let Answer::Names(r) = &self.script[n] {
                return match r {
                    Ok(names) => Ok(copy_strings(names)),
                    Err(e) => Err(copy_failure(e)),
                };
            }
        }
        Err(fail("the script has no answer here"))
    }
}

impl Backend for Scripted {
    open spec fn world(&self) -> World {
        self.account()
    }

    fn git(&mut self, inv: &GitInvocation<'_>) -> (r: Result<String, Failure>) {
        self.answer_text(
            Request::Git {
                args: copy_texts(inv.args),
                cwd: inv.cwd.to_owned(),
                env_set: copy_pairs(inv.env_set),
                env_remove: copy_texts(inv.env_remove),
            },
        )
    }

    fn read_to_string(&mut self, path: &str) -> (r: Result<String, Failure>) {
        self.answer_text(Request::Read(path.to_owned()))
    }

    fn write(&mut self, path: &str, contents: &[u8]) -> (r: Result<(), Failure>) {
        self.answer_done(Request::Write { path: path.to_owned(), contents: copy_bytes(contents) })
    }

    fn create_dir_all(&mut self, path: &str) -> (r: Result<(), Failure>) {
        self.answer_done(Request::CreateDirAll(path.to_owned()))
    }

    fn copy(&mut self, from: &str, to: &str) -> (r: Result<u64, Failure>) {
        let n = self.keep(Request::Copy { from: from.to_owned(), to: to.to_owned() });
        if n < self.script.len() {
            if let Answer::Size(r) = &self.script[n] {
                return match r {
                    Ok(size) => Ok(*size),
                    Err(e) => Err(copy_failure(e)),
                };
            }
        }
        Err(fail("the script has no answer here"))
    }

    fn remove_file(&mut self, path: &str) -> (r: Result<(), Failure>) {
        self.answer_done(Request::RemoveFile(path.to_owned()))
    }

    fn remove_dir(&mut self, path: &str) -> (r: Result<(), Failure>) {
        self.answer_done(Request::RemoveDir(path.to_owned()))
    }

    fn remove_dir_all(&mut self, path: &str) -> (r: Result<(), Failure>) {
        self.answer_done(Request::RemoveDirAll(path.to_owned()))
    }

    fn path_exists(&mut self, path: &str) -> (r: bool) {
        self.answer_flag(Request::Exists(path.to_owned()))
    }

    fn is_file(&mut self, path: &str) -> (r: bool) {
        self.answer_flag(Request::IsFile(path.to_owned()))
    }

    fn is_dir(&mut self, path: &str) -> (r: bool) {
        self.answer_flag(Request::IsDir(path.to_owned()))
    }

    fn canonicalize(&mut self, path: &str) -> (r: Result<String, Failure>) {
        self.answer_text(Request::Canonicalize(path.to_owned()))
    }

    fn read_dir(&mut self, path: &str) -> (r: Result<Vec<String>, Failure>) {
        self.answer_names(Request::ReadDir(path.to_owned()))
    }

    fn list_dir(&mut self, path: &str) -> (r: Result<Listing, Failure>) {
        let n = self.keep(Request::ListDir(path.to_owned()));
        if n < self.script.len() {
            if let Answer::Listing(r) = &self.script[n] {
                return match r {
                    Ok(listing) => Ok(
                        Listing {
                            paths: copy_strings(&listing.paths),
                            broken: match &listing.broken {
                                Some(e) => Some(copy_failure(e)),
                                None => None,
                            },
                        },
                    ),
                    Err(e) => Err(copy_failure(e)),
                };
            }
        }
        Err(fail("the script has no answer here"))
    }

    fn metadata_mode(&mut self, path: &str) -> (r: Result<u32, Failure>) {
        let n = self.keep(Request::Mode(path.to_owned()));
        if n < self.script.len() {
            if let Answer::Mode(r) = &self.script[n] {
                return match r {
                    Ok(mode) => Ok(*mode),
                    Err(e) => Err(copy_failure(e)),
                };
            }
        }
        Err(fail("the script has no answer here"))
    }

    fn set_permissions_mode(&mut self, path: &str, mode: u32) -> (r: Result<(), Failure>) {
        self.answer_done(Request::SetMode { path: path.to_owned(), mode })
    }

    fn current_exe(&mut self) -> (r: Result<String, Failure>) {
        self.answer_text(Request::CurrentExe)
    }

    fn run_command(&mut self, program: &str, args: &[&str], cwd: &str) -> (r: Result<
        ExitReport,
        Failure,
    >) {
        let n = self.keep(
            Request::Run {
                program: program.to_owned(),
                args: copy_texts(args),
                cwd: cwd.to_owned(),
            },
        );
        if n < self.script.len() {
            if let Answer::Exit(r) = &self.script[n] {
                return match r {
                    Ok(exit) => Ok(ExitReport { success: exit.success, text: exit.text.clone() }),
                    Err(e) => Err(copy_failure(e)),
                };
            }
        }
        Err(fail("the script has no answer here"))
    }

    fn capture(&mut self, program: &str, args: &[&str], cwd: Option<&str>) -> (r: Result<
        OutputReport,
        Failure,
    >) {
        let dir: Option<String> = match cwd {
            Some(dir) => Some(dir.to_owned()),
            None => None,
        };
        let n = self.keep(
            Request::Capture { program: program.to_owned(), args: copy_texts(args), dir },
        );
        if n < self.script.len() {
            if let Answer::Output(r) = &self.script[n] {
                return match r {
                    Ok(output) => Ok(
                        OutputReport {
                            success: output.success,
                            stdout: output.stdout.clone(),
                            stderr: output.stderr.clone(),
                        },
                    ),
                    Err(e) => Err(copy_failure(e)),
                };
            }
        }
        Err(fail("the script has no answer here"))
    }

    fn store(&mut self, request: &StoreRequest<'_>) -> (r: Result<String, Failure>) {
        self.answer_text(Request::Store(kept(request)))
    }

    fn add_task(
        &mut self,
        scope: &TaskScope,
        task: &TaskFields,
        source: Option<&TaskSource>,
    ) -> (r: Result<(String, String), Failure>) {
        let n = self.keep(
            Request::Store(
                Stored::AddTask {
                    scope: copy_scope(scope),
                    task: copy_task(task),
                    source: copy_source(source),
                },
            ),
        );
        if n < self.script.len() {
            if let Answer::Pair(r) = &self.script[n] {
                return match r {
                    Ok(pair) => Ok((pair.0.clone(), pair.1.clone())),
                    Err(e) => Err(copy_failure(e)),
                };
            }
        }
        Err(fail("the script has no answer here"))
    }

    fn sqlite_execute(&mut self, db: &str, sql: &str, params: &[SqlValue]) -> (r: Result<
        (),
        Failure,
    >) {
        self.answer_done(
            Request::SqliteExecute {
                db: db.to_owned(),
                sql: sql.to_owned(),
                params: copy_params(params),
            },
        )
    }

    fn sqlite_texts(&mut self, db: &str, sql: &str) -> (r: Result<Vec<String>, Failure>) {
        self.answer_names(Request::SqliteTexts { db: db.to_owned(), sql: sql.to_owned() })
    }

    fn note(&mut self, line: &str) {
        self.keep(Request::Note(line.to_owned()));
    }
}

} // verus!
