//! Whole commands, against files in memory and a git that answers from a table.

use std::collections::{BTreeMap, BTreeSet};

use subcontext::agent::Agent;
use subcontext::backend::{
    Backend, ExitReport, GitInvocation, Listing, OutputReport, SqlValue, StoreRequest, TaskFields,
    TaskScope, TaskSource,
};
use subcontext::environment::Env;
use subcontext::failure::{fail, Failure};
use subcontext::git::{overlay_branch_name, sanitize_branch_name, CheckoutContext};
use subcontext::horizon::{parse_horizon, Unit};
use subcontext::install::line_invokes_subcontext;
use subcontext::objects::build_child_object_json;
use subcontext::propagate::{ambiguous_text, task_name, TaskMatch};
use subcontext::submodule::derive_path_from_url;
use subcontext::world::World;

/// Files in memory, and answers for what is run.
#[derive(Default)]
struct Fake {
    files: BTreeMap<String, String>,
    dirs: BTreeSet<String>,
    modes: BTreeMap<String, u32>,
    /// What git answers to a row of arguments; nothing where it is not here.
    git: BTreeMap<String, Result<String, String>>,
    /// The git commands that were run, each with its directory.
    ran: Vec<String>,
    /// What dolt prints for a statement.
    sql: BTreeMap<String, String>,
    programs: Vec<String>,
    exit: Option<bool>,
    stored: Vec<String>,
    tasks: Vec<String>,
    statements: Vec<String>,
    rows: BTreeMap<String, Vec<String>>,
    /// Directories with an entry that cannot be read.
    unreadable: BTreeSet<String>,
    notes: Vec<String>,
}

impl Fake {
    fn file(mut self, path: &str, text: &str) -> Self {
        self.files.insert(path.to_string(), text.to_string());
        self
    }

    fn dir(mut self, path: &str) -> Self {
        self.dirs.insert(path.to_string());
        self
    }

    fn answers(mut self, args: &str, text: &str) -> Self {
        self.git.insert(args.to_string(), Ok(text.to_string()));
        self
    }

    fn refuses(mut self, args: &str) -> Self {
        self.git.insert(args.to_string(), Err("refused".to_string()));
        self
    }

    fn prints(mut self, sql: &str, text: &str) -> Self {
        self.sql.insert(sql.to_string(), text.to_string());
        self
    }

    fn ran(&self, args: &str) -> bool {
        self.ran.iter().any(|c| c.split_once("$ ").unwrap().1 == args)
    }

    fn noted(&self, part: &str) -> bool {
        self.notes.iter().any(|n| n.contains(part))
    }

    fn there(&self, path: &str) -> bool {
        let below = format!("{path}/");
        self.files.contains_key(path)
            || self.dirs.contains(path)
            || self.files.keys().any(|f| f.starts_with(&below))
            || self.dirs.iter().any(|d| d.starts_with(&below))
    }
}

impl Backend for Fake {
    fn world(&self) -> World {
        unreachable!("the account is for proofs alone")
    }

    fn git(&mut self, inv: &GitInvocation<'_>) -> Result<String, Failure> {
        // The bare repo that a command is for is left out.
        let args: Vec<&str> =
            inv.args.iter().copied().filter(|a| !a.starts_with("--git-dir=")).collect();
        let args = args.join(" ");
        self.ran.push(format!("{}$ {}", inv.cwd, args));
        match self.git.get(&args) {
            Some(Ok(text)) => Ok(text.clone()),
            Some(Err(text)) => Err(fail(text)),
            None => Ok(String::new()),
        }
    }
    fn read_to_string(&mut self, path: &str) -> Result<String, Failure> {
        self.files.get(path).cloned().ok_or_else(|| fail("no such file"))
    }
    fn write(&mut self, path: &str, contents: &[u8]) -> Result<(), Failure> {
        let text = String::from_utf8(contents.to_vec()).unwrap();
        self.files.insert(path.to_string(), text);
        Ok(())
    }
    fn create_dir_all(&mut self, path: &str) -> Result<(), Failure> {
        self.dirs.insert(path.to_string());
        Ok(())
    }
    fn copy(&mut self, from: &str, to: &str) -> Result<u64, Failure> {
        let text = self.read_to_string(from)?;
        let size = text.len() as u64;
        self.files.insert(to.to_string(), text);
        Ok(size)
    }
    fn remove_file(&mut self, path: &str) -> Result<(), Failure> {
        match self.files.remove(path) {
            Some(_) => Ok(()),
            None => Err(fail("no such file")),
        }
    }
    fn remove_dir(&mut self, path: &str) -> Result<(), Failure> {
        let below = format!("{path}/");
        if self.files.keys().any(|f| f.starts_with(&below)) {
            return Err(fail("not empty"));
        }
        match self.dirs.remove(path) {
            true => Ok(()),
            false => Err(fail("no such directory")),
        }
    }
    fn remove_dir_all(&mut self, path: &str) -> Result<(), Failure> {
        let below = format!("{path}/");
        self.files.retain(|f, _| !f.starts_with(&below));
        self.dirs.retain(|d| d != path && !d.starts_with(&below));
        Ok(())
    }
    fn path_exists(&mut self, path: &str) -> bool {
        self.there(path)
    }
    fn is_file(&mut self, path: &str) -> bool {
        self.files.contains_key(path)
    }
    fn is_dir(&mut self, path: &str) -> bool {
        self.there(path) && !self.files.contains_key(path)
    }
    fn canonicalize(&mut self, path: &str) -> Result<String, Failure> {
        match self.there(path) {
            true => Ok(path.to_string()),
            false => Err(fail("no such path")),
        }
    }
    fn read_dir(&mut self, path: &str) -> Result<Vec<String>, Failure> {
        if !self.there(path) {
            return Err(fail("no such directory"));
        }
        let below = format!("{path}/");
        let mut found = BTreeSet::new();
        for entry in self.files.keys().chain(self.dirs.iter()) {
            if let Some(rest) = entry.strip_prefix(&below) {
                found.insert(format!("{below}{}", rest.split('/').next().unwrap()));
            }
        }
        Ok(found.into_iter().collect())
    }
    fn list_dir(&mut self, path: &str) -> Result<Listing, Failure> {
        let broken = match self.unreadable.contains(path) {
            true => Some(fail("an entry cannot be read")),
            false => None,
        };
        Ok(Listing { paths: self.read_dir(path)?, broken })
    }
    fn metadata_mode(&mut self, path: &str) -> Result<u32, Failure> {
        Ok(self.modes.get(path).copied().unwrap_or(0o644))
    }
    fn set_permissions_mode(&mut self, path: &str, mode: u32) -> Result<(), Failure> {
        self.modes.insert(path.to_string(), mode);
        Ok(())
    }
    fn current_exe(&mut self) -> Result<String, Failure> {
        Ok("/bin/subcontext".to_string())
    }
    fn run_command(&mut self, program: &str, args: &[&str], _cwd: &str) -> Result<ExitReport, Failure> {
        self.programs.push(format!("{program} {}", args.join(" ")));
        match self.exit {
            Some(success) => Ok(ExitReport { success, text: "exit status: 3".to_string() }),
            None => Ok(ExitReport { success: true, text: "exit status: 0".to_string() }),
        }
    }
    fn capture(&mut self, program: &str, args: &[&str], _cwd: Option<&str>) -> Result<OutputReport, Failure> {
        self.programs.push(format!("{program} {}", args.join(" ")));
        let stdout = match args.last().and_then(|sql| self.sql.get(*sql)) {
            Some(text) => text.clone(),
            None => String::new(),
        };
        Ok(OutputReport { success: true, stdout, stderr: String::new() })
    }
    fn store(&mut self, request: &StoreRequest<'_>) -> Result<String, Failure> {
        let told = match request {
            StoreRequest::InitLocalState { root } => format!("init {root}"),
            StoreRequest::InitState { state, .. } => format!("init state {state}"),
            StoreRequest::InsertObject { uuid, kind, commit, .. } => {
                format!("insert {uuid} {kind} {commit}")
            }
            StoreRequest::CommitTracked { message, .. } => format!("commit {message}"),
            StoreRequest::CommitState { message, .. } => format!("commit state {message}"),
            StoreRequest::CreateObjectBranch { uuid, .. } => format!("branch {uuid}"),
            StoreRequest::UpdateObjectCommit { uuid, commit, .. } => {
                format!("update {uuid} {commit}")
            }
            StoreRequest::Deadlines { root, important_only, horizon } => {
                self.stored.push("deadlines".to_string());
                return Ok(format!("{root} {important_only} {horizon:?}\n"));
            }
        };
        self.stored.push(told);
        Ok("stored".to_string())
    }
    fn add_task(
        &mut self,
        scope: &TaskScope,
        task: &TaskFields,
        source: Option<&TaskSource>,
    ) -> Result<(String, String), Failure> {
        let n = self.tasks.len() + 1;
        let from = match source {
            Some(s) => format!("{}/{}/{}", s.context_uuid, s.task_uuid, s.commit),
            None => "none".to_string(),
        };
        self.tasks.push(format!("{} {} from {from}", scope.project_uuid, task.name));
        Ok((format!("shadow-{n}"), format!("commit-{n}")))
    }
    fn sqlite_execute(&mut self, _db: &str, sql: &str, params: &[SqlValue]) -> Result<(), Failure> {
        let texts: Vec<String> = params
            .iter()
            .map(|p| match p {
                SqlValue::Null => "null".to_string(),
                SqlValue::Text(s) | SqlValue::Real(s) => s.clone(),
            })
            .collect();
        self.statements.push(format!("{} [{}]", sql.split_whitespace().next().unwrap(), texts.join(", ")));
        Ok(())
    }
    fn sqlite_texts(&mut self, _db: &str, sql: &str) -> Result<Vec<String>, Failure> {
        Ok(self.rows.get(sql).cloned().unwrap_or_default())
    }
    fn note(&mut self, line: &str) {
        self.notes.push(line.to_string());
    }
}

fn env() -> Env {
    Env {
        subcontext_path: None,
        home: Some("/home/me".to_string()),
        user_profile: None,
        os: "linux".to_string(),
        arch: "x86_64".to_string(),
        agent: Agent { name: "helper".to_string(), title: "Helper".to_string() },
    }
}

fn ok<T>(r: Result<T, Failure>) -> T {
    match r {
        Ok(v) => v,
        Err(e) => panic!("{}", e.chain_text()),
    }
}

fn message<T>(r: Result<T, Failure>) -> String {
    match r {
        Ok(_) => panic!("a failure was expected"),
        Err(e) => e.chain_text(),
    }
}

const UUID_LINE: &str = "project_uuid: p-1\nkind: subcontext\n";

/// A repository at `/r` with an installed subcontext on `main`.
fn installed() -> Fake {
    Fake::default()
        .dir("/r/.git/.subcontext")
        .dir("/r/.git/.subcontext/work")
        .file("/r/.git/.subcontext/work/.git", "gitdir: /r/.git/.subcontext/repo/worktrees/work\n")
        .file("/r/.git/.subcontext/config/subcontext.yaml", UUID_LINE)
        .file("/r/.git/info/exclude", "*.o\n")
        .answers("symbolic-ref --short HEAD", "main")
}

/// The same with a global subcontext.
fn with_global() -> Fake {
    let base = "/home/me/.subcontext/global";
    installed()
        .dir(&format!("{base}/repo"))
        .file(&format!("{base}/config/subcontext.yaml"), "project_uuid: sys\nkind: system\n")
        .file("/home/me/.subcontext/bin/dolt", "")
}

// ─── Git roots ────────────────────────────────────────────────────────

#[test]
fn the_main_root_is_found_above() {
    let mut b = installed().dir("/r/src/deep");
    assert_eq!(ok(subcontext::git::find_main_git_root(&mut b, "/r/src/deep")), "/r");
    let mut b = Fake::default().dir("/x/y");
    assert!(subcontext::git::find_main_git_root(&mut b, "/x/y").is_err());
    assert_eq!(
        message(subcontext::git::find_main_git_root(&mut b, "/nowhere")),
        "failed to canonicalize start path: no such path"
    );
}

#[test]
fn a_linked_worktree_names_its_main_checkout() {
    let mut b = Fake::default()
        .dir("/r/.git/worktrees/side")
        .file("/wt/.git", "gitdir: /r/.git/worktrees/side\n")
        .dir("/wt/src");
    let ctx = ok(subcontext::git::find_checkout_context(&mut b, "/wt/src"));
    assert_eq!(ctx.main_root, "/r");
    assert_eq!(ctx.checkout_root, "/wt");
    assert_eq!(ctx.worktree_name, Some("side".to_string()));
    assert!(ctx.is_worktree());
    assert_eq!(ctx.overlay_work_dir(), "/r/.git/.subcontext/worktrees/side");
    assert!(subcontext::git::find_main_git_root(&mut b, "/wt").is_err());
}

#[test]
fn branch_names_become_one_segment() {
    for name in ["feature/x", "a..b", ".hidden", "plain"] {
        let safe = sanitize_branch_name(name);
        assert!(!safe.contains('/'), "{safe}");
    }
    assert_eq!(sanitize_branch_name("plain"), "plain");
    assert!(overlay_branch_name("plain").ends_with("plain"));
}

// ─── Overlay ──────────────────────────────────────────────────────────

#[test]
fn adding_a_file_copies_and_excludes_it() {
    let mut b = installed()
        .file("/r/notes/a.md", "text")
        .answers("ls-files", "notes/a.md")
        .refuses("ls-files --error-unmatch notes/a.md");
    ok(subcontext::cli::add_files(&mut b, "/r", &vec!["notes/a.md".to_string()]));
    assert_eq!(b.files["/r/.git/.subcontext/work/notes/a.md"], "text");
    assert!(b.ran("add notes/a.md"));
    assert!(!b.ran("update-index --skip-worktree notes/a.md"));
    assert_eq!(
        b.files["/r/.git/info/exclude"],
        "*.o\n# subcontext-overlay-start\nnotes/a.md\n# subcontext-overlay-end\n"
    );
    assert_eq!(b.notes, vec!["[subcontext] Added: notes/a.md".to_string()]);
}

#[test]
fn adding_a_directory_adds_its_files() {
    let mut b = installed()
        .file("/r/docs/a.md", "a")
        .file("/r/docs/deep/b.md", "b")
        .file("/r/docs/deep/.git/config", "not ours");
    ok(subcontext::cli::add_files(&mut b, "/r", &vec!["docs".to_string()]));
    assert_eq!(b.files["/r/.git/.subcontext/work/docs/a.md"], "a");
    assert_eq!(b.files["/r/.git/.subcontext/work/docs/deep/b.md"], "b");
    assert!(!b.files.contains_key("/r/.git/.subcontext/work/docs/deep/.git/config"));
    assert!(b.ran("add docs/a.md"));
    assert!(b.ran("add docs/deep/b.md"));
    assert_eq!(
        b.notes,
        vec![
            "[subcontext] Added: docs/a.md".to_string(),
            "[subcontext] Added: docs/deep/b.md".to_string()
        ]
    );
}

#[test]
fn a_directory_is_followed_by_what_it_holds() {
    let mut b = Fake::default().file("/d/one/two/x", "").file("/d/.git/y", "").file("/d/z", "");
    let mut found = Vec::new();
    ok(subcontext::tree::find_below(&mut b, "/d", "d", &mut found));
    let told: Vec<(&str, bool)> = found.iter().map(|f| (f.path.as_str(), f.is_dir)).collect();
    assert_eq!(
        told,
        vec![("d/one", true), ("d/one/two", true), ("d/one/two/x", false), ("d/z", false)]
    );
    assert_eq!(subcontext::tree::files_among(&found), vec!["d/one/two/x", "d/z"]);
    let mut none = Vec::new();
    assert_eq!(
        message(subcontext::tree::find_below(&mut b, "/gone", "gone", &mut none)),
        "no such directory"
    );
}

#[test]
fn directories_may_lie_deep() {
    let path = "/r/d".to_string() + &"/d".repeat(200) + "/x";
    let mut b = installed().file(&path, "text");
    ok(subcontext::cli::add_files(&mut b, "/r", &vec!["d".to_string()]));
    assert!(b.noted(&path[3..]));
}

#[test]
fn a_file_that_the_host_has_is_hidden_instead() {
    let mut b = installed().file("/r/a.md", "text").answers("ls-files", "a.md");
    let ctx = CheckoutContext::main_only("/r");
    ok(subcontext::overlay::add_file(&mut b, &ctx, "a.md"));
    assert!(b.ran("update-index --skip-worktree a.md"));
    assert_eq!(b.files["/r/.git/info/exclude"], "*.o\n");
}

#[test]
fn adding_refuses_what_is_not_there() {
    let mut b = installed();
    let files = vec!["gone".to_string()];
    assert_eq!(message(subcontext::cli::add_files(&mut b, "/r", &files)), "file does not exist: gone");
    let mut b = installed().file("/elsewhere/x", "");
    let files = vec!["/elsewhere/x".to_string()];
    assert_eq!(
        message(subcontext::cli::add_files(&mut b, "/r", &files)),
        "file /elsewhere/x is outside the repository root"
    );
}

#[test]
fn saving_commits_only_changes() {
    let mut b = installed()
        .file("/r/a", "new")
        .file("/r/.git/.subcontext/work/a", "old")
        .answers("ls-files", "a")
        .answers("status --porcelain", " M a");
    ok(subcontext::cli::save_changes(&mut b, "/r", None));
    assert_eq!(b.files["/r/.git/.subcontext/work/a"], "new");
    assert!(b.ran("commit -m manual save"));
    let mut b = installed().answers("status --porcelain", "");
    ok(subcontext::cli::save_changes(&mut b, "/r", Some("m")));
    assert!(!b.ran("commit -m m"));
    assert!(b.noted("Saved overlay changes."));
}

#[test]
fn unapplying_removes_overlay_files_and_empty_directories() {
    let mut b = installed()
        .dir("/r/notes")
        .file("/r/notes/a.md", "text")
        .file("/r/host.md", "changed")
        .answers("ls-files", "notes/a.md\nhost.md")
        .refuses("ls-files --error-unmatch notes/a.md");
    let ctx = CheckoutContext::main_only("/r");
    ok(subcontext::overlay::unapply_overlay(&mut b, &ctx));
    assert!(!b.files.contains_key("/r/notes/a.md"));
    assert!(!b.dirs.contains("/r/notes"));
    assert!(b.files.contains_key("/r/host.md"));
    assert!(b.ran("checkout -- host.md"));
}

#[test]
fn removing_a_file_takes_it_out_of_the_overlay() {
    let mut b = installed()
        .file("/r/a.md", "text")
        .refuses("ls-files --error-unmatch a.md");
    ok(subcontext::cli::remove_files(&mut b, "/r", &vec!["a.md".to_string()]));
    assert!(b.ran("rm -f a.md"));
    assert!(!b.files.contains_key("/r/a.md"));
    assert!(b.noted("[subcontext] Removed: a.md"));
}

#[test]
fn applying_copies_the_overlay_over_the_checkout() {
    let mut b = installed()
        .file("/r/.git/.subcontext/work/d/a", "text")
        .answers("ls-files", "d/a");
    let ctx = CheckoutContext::main_only("/r");
    ok(subcontext::overlay::apply_overlay(&mut b, &ctx));
    assert_eq!(b.files["/r/d/a"], "text");
    let mut b = installed().answers("ls-files", "lost");
    assert_eq!(
        message(subcontext::overlay::apply_overlay(&mut b, &ctx)),
        "failed to copy overlay file: lost: no such file"
    );
}

// ─── Hooks ────────────────────────────────────────────────────────────

#[test]
fn a_file_checkout_changes_nothing() {
    let mut b = installed();
    let ctx = CheckoutContext::main_only("/r");
    ok(subcontext::hook::post_checkout_inner(&mut b, &ctx, "a", "b", "0"));
    assert!(b.ran.is_empty());
}

#[test]
fn a_branch_checkout_switches_the_overlay() {
    let mut b = installed();
    b.git.insert("symbolic-ref --short HEAD".to_string(), Ok("feature".to_string()));
    let ctx = CheckoutContext::main_only("/r");
    ok(subcontext::hook::post_checkout_inner(&mut b, &ctx, "a", "b", "1"));
    assert!(b.ran.iter().any(|c| c.contains("checkout") && c.contains("feature")), "{:?}", b.ran);
}

#[test]
fn the_failure_of_an_old_hook_is_told() {
    let old = "/r/.git/.subcontext/config/hooks/old/post-commit";
    let mut b = installed().file(old, "#!/bin/sh\n");
    b.modes.insert(old.to_string(), 0o755);
    b.exit = Some(false);
    let ctx = CheckoutContext::main_only("/r");
    let told = message(subcontext::hook::post_commit(&mut b, &ctx));
    assert_eq!(told, "old post-commit hook exited with exit status: 3");
    // A hook that may not be executed is not run.
    b.modes.insert(old.to_string(), 0o644);
    b.programs.clear();
    ok(subcontext::hook::post_commit(&mut b, &ctx));
    assert!(b.programs.is_empty());
}

#[test]
fn a_hook_outside_a_repository_only_warns() {
    let mut b = Fake::default().dir("/x");
    ok(subcontext::cli::on_checkout(&mut b, "/x", "a", "b", "1"));
    ok(subcontext::cli::on_commit(&mut b, "/x"));
    assert_eq!(b.notes.len(), 2);
    assert!(b.notes[0].starts_with("[subcontext] warning: "));
}

// ─── Installing and removing ──────────────────────────────────────────

#[test]
fn installing_sets_up_hooks_settings_and_configuration() {
    let mut b = Fake::default()
        .dir("/r/.git/hooks")
        .dir("/r/.git/.subcontext/config")
        .answers("symbolic-ref --short HEAD", "main");
    ok(subcontext::install::install_with(&mut b, &env(), "/r", false, "fresh-uuid"));
    let hook = &b.files["/r/.git/hooks/post-checkout"];
    assert!(hook.starts_with("#!/bin/sh\n"), "{hook}");
    assert!(subcontext::install::hook_dispatches_to_subcontext(&mut b, "/r", "post-checkout"));
    assert_eq!(b.modes["/r/.git/hooks/post-checkout"] & 0o111, 0o111);
    assert!(b.files["/r/.helper/settings.local.json"].contains("--helper-code"));
    assert_eq!(
        b.files["/r/.git/.subcontext/config/agents/helper/settings.local.json"],
        b.files["/r/.helper/settings.local.json"]
    );
    let config = &b.files["/r/.git/.subcontext/config/subcontext.yaml"];
    assert!(config.contains("project_uuid: fresh-uuid"), "{config}");
    assert!(b.ran("config alias.subcontext !/bin/subcontext"));
    assert!(b.noted("Installation complete!"));
    // Installing again keeps the UUID.
    ok(subcontext::install::install_with(&mut b, &env(), "/r", false, "other"));
    let config = &b.files["/r/.git/.subcontext/config/subcontext.yaml"];
    assert!(config.contains("project_uuid: fresh-uuid"), "{config}");
}

#[test]
fn a_new_repository_gets_a_context_repo() {
    let mut b = Fake::default().dir("/r/.git/hooks").answers("symbolic-ref --short HEAD", "main");
    ok(subcontext::install::init_context_repo(&mut b, "/r", "main"));
    assert!(b.ran("init --bare /r/.git/.subcontext/repo"));
    assert!(b.ran("worktree add /r/.git/.subcontext/config config"));
    assert_eq!(b.stored, vec!["init /r".to_string()]);
}

#[test]
fn a_foreign_hook_is_backed_up_and_restored() {
    let mut b = Fake::default()
        .file("/r/.git/hooks/post-commit", "#!/bin/sh\nmake\n")
        .dir("/r/.git/.subcontext/config")
        .answers("symbolic-ref --short HEAD", "main");
    b.modes.insert("/r/.git/hooks/post-commit".to_string(), 0o755);
    ok(subcontext::install::install_with(&mut b, &env(), "/r", false, "u"));
    assert_eq!(
        b.files["/r/.git/.subcontext/config/hooks/old/post-commit"],
        "#!/bin/sh\nmake\n"
    );
    ok(subcontext::uninstall::uninstall(&mut b, &env(), "/r"));
    assert_eq!(b.files["/r/.git/hooks/post-commit"], "#!/bin/sh\nmake\n");
    assert!(!b.files.contains_key("/r/.git/hooks/post-checkout"));
    assert!(!b.files["/r/.helper/settings.local.json"].contains("subcontext startup"));
    assert!(!b.there("/r/.git/.subcontext"));
    assert!(b.noted("Uninstall complete."));
}

#[test]
fn there_may_be_nothing_to_uninstall() {
    let mut b = Fake::default().dir("/r/.git");
    ok(subcontext::uninstall::uninstall(&mut b, &env(), "/r"));
    assert_eq!(
        b.notes,
        vec!["[subcontext] No .git/.subcontext/ found — nothing to uninstall.".to_string()]
    );
    assert!(b.ran.is_empty());
}

#[test]
fn lines_that_invoke_subcontext() {
    assert!(line_invokes_subcontext("exec git subcontext _hook post-commit \"$@\""));
    assert!(line_invokes_subcontext("subcontext _hook post-commit"));
    assert!(!line_invokes_subcontext("# exec git subcontext _hook post-commit"));
    assert!(!line_invokes_subcontext("  # git subcontext _hook post-commit"));
    assert!(!line_invokes_subcontext("make all # then run subcontext"));
    assert!(!line_invokes_subcontext("make;# subcontext"));
    assert!(line_invokes_subcontext("echo '# a' \"# b\" \\# $# && subcontext _hook"));
    assert!(line_invokes_subcontext("make all#1 subcontext"));
    assert!(line_invokes_subcontext("make;subcontext _hook post-commit"));
    assert!(line_invokes_subcontext("x=`subcontext uuid`"));
    assert!(line_invokes_subcontext("(subcontext uuid)|cat"));
    assert!(!line_invokes_subcontext("xsubcontextsubcontext"));
    assert!(!line_invokes_subcontext("make"));
}

#[test]
fn cloning_needs_a_free_place() {
    let mut b = installed();
    assert_eq!(
        message(subcontext::clone::clone_with(&mut b, &env(), "/r", "url", "u")),
        ".git/.subcontext/ already exists. Remove it first if you want to clone a fresh context repo."
    );
    let mut b = Fake::default().dir("/r/.git/hooks").answers("symbolic-ref --short HEAD", "main");
    ok(subcontext::clone::clone_with(&mut b, &env(), "/r", "url", "u"));
    assert!(b.ran("clone --bare url /r/.git/.subcontext/repo"));
    assert!(b.noted("Clone complete."));
    let mut b = Fake::default().dir("/r/.git").refuses("clone --bare url /r/.git/.subcontext/repo");
    assert_eq!(
        message(subcontext::clone::clone_with(&mut b, &env(), "/r", "url", "u")),
        "failed to clone context repo: refused"
    );
}

#[test]
fn fresh_uuids_differ_and_have_their_form() {
    let mut seen = Vec::new();
    for dir in ["/a", "/b"] {
        let mut b = Fake::default();
        seen.push(ok(subcontext::project::ensure_config_in(&mut b, dir, "subcontext")));
        assert_eq!(ok(subcontext::project::read_project_uuid_at(&mut b, dir)), seen[seen.len() - 1]);
        assert_eq!(ok(subcontext::project::read_kind_at(&mut b, dir)), "subcontext");
    }
    assert_ne!(seen[0], seen[1]);
    for (i, c) in seen[0].chars().enumerate() {
        match i {
            8 | 13 | 18 | 23 => assert_eq!(c, '-'),
            14 => assert_eq!(c, '4'),
            _ => assert!(c.is_ascii_hexdigit() && !c.is_ascii_uppercase()),
        }
    }
    assert_eq!(seen[0].len(), 36);
}

#[test]
fn a_project_keeps_the_uuid_that_it_got() {
    let mut b = Fake::default()
        .dir("/r/.git/hooks")
        .dir("/r/.git/.subcontext/config")
        .answers("symbolic-ref --short HEAD", "main");
    let uuid = ok(subcontext::project::ensure_project_config(&mut b, "/r"));
    assert_eq!(uuid.len(), 36);
    ok(subcontext::install::install_from_hooks(&mut b, &env(), "/r", false));
    assert_eq!(ok(subcontext::project::read_project_uuid(&mut b, "/r")), uuid);
    assert_eq!(ok(subcontext::project::read_kind(&mut b, "/r")), "project");
    assert!(subcontext::install::hook_dispatches_to_subcontext(&mut b, "/r", "post-commit"));
}

// ─── Global subcontext ────────────────────────────────────────────────

#[test]
fn the_global_root_comes_from_the_environment() {
    assert_eq!(
        ok(subcontext::global::global_subcontext_dir(&env())),
        "/home/me/.subcontext/global"
    );
    let mut e = env();
    e.subcontext_path = Some("/data".to_string());
    assert_eq!(ok(subcontext::global::global_subcontext_dir(&e)), "/data/global");
    assert_eq!(ok(subcontext::global::global_repo_dir(&e)), "/data/global/repo");
    assert_eq!(ok(subcontext::global::user_config_dir(&e)), "/data/user/config");
    e.subcontext_path = None;
    e.home = None;
    assert_eq!(
        message(subcontext::global::global_root(&e)),
        "HOME environment variable is not set"
    );
}

#[test]
fn a_global_subcontext_is_installed_once() {
    let mut b = Fake::default().file("/home/me/.subcontext/bin/dolt", "");
    ok(subcontext::global::install_with(&mut b, &env(), "sys-uuid"));
    let config = &b.files["/home/me/.subcontext/global/config/subcontext.yaml"];
    assert!(config.contains("project_uuid: sys-uuid"), "{config}");
    assert!(config.contains("kind: system"), "{config}");
    let mut b = with_global();
    ok(subcontext::global::install_with(&mut b, &env(), "other"));
    assert_eq!(ok(subcontext::global::system_uuid(&mut b, &env())), "sys");
    assert_eq!(ok(subcontext::global::system_kind(&mut b, &env())), "system");
}

#[test]
fn a_child_is_registered_once() {
    let mut b = with_global().refuses("show-ref --verify --quiet refs/heads/object/p-1");
    let commit = ok(subcontext::global::register_child(&mut b, &env(), "p-1", "subcontext"));
    assert!(commit.is_some());
    assert!(b.ran.iter().any(|c| c.contains("hash-object")));
    let mut b = with_global();
    assert_eq!(ok(subcontext::global::register_child(&mut b, &env(), "p-1", "subcontext")), None);
    let mut b = installed();
    assert_eq!(ok(subcontext::global::register_child(&mut b, &env(), "p-1", "subcontext")), None);
}

const PARENT_OF: &str = "SELECT parent_uuid FROM parents WHERE child_uuid = ";

#[test]
fn parents_are_read_and_kept() {
    let mut b = with_global()
        .prints(&format!("{PARENT_OF}'p-1'"), r#"{"rows": [{"parent_uuid": "user"}]}"#);
    assert_eq!(
        ok(subcontext::global::get_parent(&mut b, &env(), "p-1")),
        Some("user".to_string())
    );
    assert_eq!(ok(subcontext::global::get_parent(&mut b, &env(), "p-2")), None);
    ok(subcontext::global::set_parent(&mut b, &env(), "p-1", "user"));
    assert_eq!(
        message(subcontext::global::set_parent(&mut b, &env(), "p-1", "sys")),
        "child p-1 already has parent user, cannot set to sys"
    );
    ok(subcontext::global::set_parent(&mut b, &env(), "p-2", "user"));
    assert!(b.programs.iter().any(|p| p.contains("INSERT INTO parents")));
}

#[test]
fn ancestry_ends_below_the_system() {
    let mut b = with_global()
        .prints(&format!("{PARENT_OF}'p-1'"), r#"{"rows": [{"parent_uuid": "user"}]}"#)
        .prints(&format!("{PARENT_OF}'user'"), r#"{"rows": [{"parent_uuid": "sys"}]}"#)
        .answers("show object/p-1:object.json", &build_child_object_json("p-1", "project"))
        .answers("show object/user:object.json", &build_child_object_json("user", "user"));
    let chain = ok(subcontext::lineage::ancestry_chain(&mut b, &env(), "p-1"));
    assert_eq!(
        chain,
        vec![
            ("p-1".to_string(), "project".to_string()),
            ("user".to_string(), "user".to_string())
        ]
    );
    assert!(ok(subcontext::lineage::ancestry_chain(&mut b, &env(), "sys")).is_empty());
    let mut b = with_global()
        .prints(&format!("{PARENT_OF}'a'"), r#"{"rows": [{"parent_uuid": "b"}]}"#)
        .prints(&format!("{PARENT_OF}'b'"), r#"{"rows": [{"parent_uuid": "a"}]}"#);
    assert_eq!(
        message(subcontext::lineage::ancestry_chain(&mut b, &env(), "a")),
        "subcontext a is among its own ancestors"
    );
    let mut b = installed();
    assert!(ok(subcontext::lineage::ancestry_chain(&mut b, &env(), "p-1")).is_empty());
}

#[test]
fn the_tree_is_drawn() {
    let mut b = with_global()
        .prints(
            "SELECT uuid, `type` FROM objects WHERE `type` = 'managed'",
            r#"{"rows": [{"uuid": "b", "type": "managed"}, {"uuid": "a", "type": "managed"},
                {"uuid": "c", "type": "managed"}, {"uuid": "d", "type": "managed"}]}"#,
        )
        .prints(
            "SELECT child_uuid, parent_uuid FROM parents",
            r#"{"rows": [{"child_uuid": "a", "parent_uuid": "sys"},
                {"child_uuid": "c", "parent_uuid": "a"},
                {"child_uuid": "d", "parent_uuid": "elsewhere"}]}"#,
        );
    let tree = ok(subcontext::lineage::tree_text(&mut b, &env()));
    let lines: Vec<&str> = tree.lines().collect();
    assert_eq!(lines[0], "sys (system)");
    assert!(lines[1].starts_with("├── a"), "{tree}");
    assert!(lines[2].starts_with("│   └── c"), "{tree}");
    assert!(lines[3].starts_with("├── b"), "{tree}");
    assert!(lines[4].starts_with("└── d"), "{tree}");
    assert_eq!(lines.len(), 5);
    let mut b = installed();
    assert_eq!(
        message(subcontext::lineage::tree_text(&mut b, &env())),
        "no global (system) subcontext installed"
    );
}

#[test]
fn a_task_is_repeated_up_the_parents() {
    let task = TaskFields {
        name: "write".to_string(),
        kind: None,
        status: None,
        description: None,
        deadline: None,
        importance: "0".to_string(),
    };
    let source = || TaskSource {
        context_uuid: "p-1".to_string(),
        task_uuid: "t".to_string(),
        commit: "c".to_string(),
    };
    let mut b = with_global()
        .prints(&format!("{PARENT_OF}'p-1'"), r#"{"rows": [{"parent_uuid": "sys"}]}"#);
    ok(subcontext::propagate::propagate_task_up(&mut b, &env(), source(), &task));
    assert_eq!(b.tasks, vec!["sys write from p-1/t/c".to_string()]);
    // A task of a subcontext without a parent goes to the system.
    let mut b = with_global();
    ok(subcontext::propagate::propagate_task_up(&mut b, &env(), source(), &task));
    assert_eq!(b.tasks, vec!["sys write from p-1/t/c".to_string()]);
    // A parent that is on the way already ends it.
    let mut b = with_global()
        .prints(&format!("{PARENT_OF}'p-1'"), r#"{"rows": [{"parent_uuid": "sys"}]}"#)
        .prints(&format!("{PARENT_OF}'sys'"), r#"{"rows": [{"parent_uuid": "p-1"}]}"#);
    assert_eq!(
        message(subcontext::propagate::propagate_task_up(&mut b, &env(), source(), &task)),
        "subcontext p-1 is among its own ancestors"
    );
    // A parent that is neither the system nor the user cannot receive it.
    let mut b = with_global()
        .prints(&format!("{PARENT_OF}'p-1'"), r#"{"rows": [{"parent_uuid": "x"}]}"#);
    assert_eq!(
        message(subcontext::propagate::propagate_task_up(&mut b, &env(), source(), &task)),
        "cannot resolve TaskScope for UUID x — only system and user subcontexts support receiving propagated tasks"
    );
    // A local task goes nowhere.
    let mut b = with_global();
    ok(subcontext::propagate::share_task(&mut b, &env(), "/r", source(), &task, true));
    assert!(b.tasks.is_empty());
}

#[test]
fn only_users_become_the_current_user() {
    let mut b = with_global()
        .answers("show object/u:object.json", &build_child_object_json("u", "subcontext"));
    assert!(subcontext::global::set_current_user(&mut b, &env(), "u").is_err());
    assert!(!b.programs.iter().any(|p| p.contains("REPLACE INTO config")));
    let mut b = with_global()
        .answers("show object/u:object.json", &build_child_object_json("u", "user"));
    ok(subcontext::global::set_current_user(&mut b, &env(), "u"));
    assert!(b.programs.iter().any(|p| {
        p.contains("REPLACE INTO config (key_name, value) VALUES ('current_user', 'u')")
    }));
    assert_eq!(b.notes, vec!["[subcontext] Current user set to u.".to_string()]);
    let mut b = installed();
    assert_eq!(
        message(subcontext::global::set_current_user(&mut b, &env(), "u")),
        "no global (system) subcontext installed"
    );
}

// ─── Reports ──────────────────────────────────────────────────────────

#[test]
fn the_status_of_the_main_checkout() {
    let mut b = installed();
    let text = ok(subcontext::status::status_text(&mut b, &env(), "/r"));
    assert_eq!(
        text,
        "Main repo:   /r\nWorktree:    no (this is the main checkout)\nBranch:      main\n\
         Subcontext:  installed\nOverlay:     overlay/main\nChanges:     none\n\
         UUID:        p-1 (subcontext)\n"
    );
    let mut b = installed().answers("status --porcelain", "M a.md\n?? b.md");
    b.git.insert("symbolic-ref --short HEAD".to_string(), Ok("fix/one".to_string()));
    let text = ok(subcontext::status::status_text(&mut b, &env(), "/r"));
    assert!(text.contains("Overlay:     overlay/fix-one\n"), "{text}");
    assert!(text.contains("Changes:\n  M a.md\n  ?? b.md\n"), "{text}");
}

#[test]
fn the_status_tells_of_the_global_subcontext() {
    let mut b = with_global()
        .prints(&format!("{PARENT_OF}'p-1'"), r#"{"rows": [{"parent_uuid": "user"}]}"#)
        .refuses("symbolic-ref --short HEAD");
    let text = ok(subcontext::status::status_text(&mut b, &env(), "/r"));
    assert!(text.contains("Branch:      (detached HEAD)\n"), "{text}");
    assert!(text.contains("Global:      sys (system)\n"), "{text}");
    assert!(!text.contains("Overlay:"), "{text}");
    assert!(text.contains("Ancestry:    p-1 (unknown) -> user ("), "{text}");
}

#[test]
fn the_startup_report_is_json() {
    let mut b = installed().file("/r/.subcontext/TASK.md", "Do \"it\"");
    let text = ok(subcontext::startup::startup(&mut b, "/r")).unwrap();
    assert_eq!(
        text,
        r#"{"additionalContext":"Active worktree: main\n\nCurrent task:\n\nDo \"it\"","continue":true}"#
    );
    let mut b = installed().file("/r/.subcontext/TASK.md", " \n");
    assert_eq!(ok(subcontext::startup::startup(&mut b, "/r")), None);
    let mut b = installed();
    assert_eq!(ok(subcontext::startup::startup(&mut b, "/r")), None);
}

fn ask(b: &mut Fake, line: &str) -> Option<String> {
    subcontext::mcp::answer_line(b, &env(), "1.2.3", &Ok("/r".to_string()), line)
}

#[test]
fn the_server_answers_requests() {
    let mut b = installed();
    assert_eq!(
        ask(&mut b, r#"{"jsonrpc":"2.0","id":1,"method":"initialize"}"#).unwrap(),
        r#"{"jsonrpc":"2.0","id":1,"result":{"protocolVersion":"2024-11-05","capabilities":{"tools":{}},"serverInfo":{"name":"subcontext","version":"1.2.3"}}}"#
    );
    assert_eq!(
        ask(&mut b, r#"{"id":"x","method":"nope"}"#).unwrap(),
        r#"{"jsonrpc":"2.0","id":"x","error":{"code":-32601,"message":"method not found: nope"}}"#
    );
    let tools = ask(&mut b, r#"{"id":2,"method":"tools/list"}"#).unwrap();
    let tools: serde_json::Value = serde_json::from_str(&tools).unwrap();
    assert_eq!(tools["result"]["tools"][0]["name"], "subcontext_status");
    assert_eq!(tools["result"]["tools"][1]["name"], "subcontext_deadlines");
    assert_eq!(tools["result"]["tools"][1]["inputSchema"]["properties"]["horizon"]["type"], "string");
}

#[test]
fn the_server_calls_tools() {
    let mut b = installed();
    let reply = ask(&mut b, r#"{"id":1,"method":"tools/call","params":{"name":"subcontext_status"}}"#);
    let reply: serde_json::Value = serde_json::from_str(&reply.unwrap()).unwrap();
    assert_eq!(reply["result"]["isError"], false);
    let text = reply["result"]["content"][0]["text"].as_str().unwrap().to_string();
    assert_eq!(text, ok(subcontext::status::status_text(&mut b, &env(), "/r")));
    let reply = ask(
        &mut b,
        r#"{"id":1,"method":"tools/call","params":{"name":"subcontext_deadlines","arguments":{"important_only":true,"horizon":"1d"}}}"#,
    );
    assert!(reply.unwrap().contains(r#"/r true Some(\"1d\")"#));
    let reply = ask(&mut b, r#"{"id":1,"method":"tools/call","params":{"name":"dig"}}"#);
    assert_eq!(
        reply.unwrap(),
        r#"{"jsonrpc":"2.0","id":1,"result":{"content":[{"type":"text","text":"unknown tool: dig"}],"isError":true}}"#
    );
    let lost = subcontext::mcp::answer_line(
        &mut b,
        &env(),
        "1.2.3",
        &Err("no directory".to_string()),
        r#"{"id":1,"method":"tools/call","params":{"name":"subcontext_status"}}"#,
    );
    assert_eq!(
        lost.unwrap(),
        r#"{"jsonrpc":"2.0","id":1,"error":{"code":-32603,"message":"no directory"}}"#
    );
}

#[test]
fn notifications_get_no_answer() {
    let mut b = installed();
    assert_eq!(ask(&mut b, r#"{"method":"initialize"}"#), None);
    assert_eq!(ask(&mut b, "  "), None);
    assert_eq!(ask(&mut b, "not json"), None);
    assert_eq!(
        ask(&mut b, r#"{"id":null,"method":"x"}"#).unwrap(),
        r#"{"jsonrpc":"2.0","id":null,"error":{"code":-32601,"message":"method not found: x"}}"#
    );
}

#[test]
fn subcontexts_are_told_by_uuid_and_kind() {
    let mut b = with_global()
        .prints(&format!("{PARENT_OF}'p-1'"), r#"{"rows": [{"parent_uuid": "user"}]}"#)
        .prints(
            "SELECT child_uuid FROM parents WHERE parent_uuid = 'p-1'",
            r#"{"rows": [{"child_uuid": "k"}]}"#,
        );
    assert_eq!(ok(subcontext::cli::current_uuid(&mut b, &env(), "/r")), "p-1");
    let parent = ok(subcontext::cli::parent_line(&mut b, &env(), "/r")).unwrap();
    assert!(parent.starts_with("user ("), "{parent}");
    let children = ok(subcontext::cli::child_lines(&mut b, &env(), "/r"));
    assert_eq!(children.len(), 1);
    assert!(children[0].starts_with("k ("), "{}", children[0]);
    let mut b = with_global().dir("/x");
    assert_eq!(ok(subcontext::cli::current_uuid(&mut b, &env(), "/x")), "sys");
    let mut b = Fake::default().dir("/x");
    assert_eq!(
        message(subcontext::cli::current_uuid(&mut b, &env(), "/x")),
        "not inside a git repo and no global subcontext installed"
    );
}

#[test]
fn an_ambiguous_name_is_told_with_its_tasks() {
    let matches = vec![
        TaskMatch {
            uuid: "u-1".to_string(),
            branch: "main".to_string(),
            description: Some("first".to_string()),
        },
        TaskMatch { uuid: "u-2".to_string(), branch: "side".to_string(), description: None },
    ];
    assert_eq!(
        ambiguous_text("write", &matches),
        "Multiple tasks match 'write' (2 matches):\n  u-1 (branch: main) — first\n  \
         u-2 (branch: side) — (no description)\n"
    );
    assert_eq!(task_name("---\nname: Write\n---\nbody"), "Write");
    assert_eq!(task_name("body"), "");
}

// ─── Submodules, docs and skills ──────────────────────────────────────

#[test]
fn submodule_paths_come_from_urls() {
    assert_eq!(derive_path_from_url("https://example.com/a/tool.git"), "tool");
    assert_eq!(derive_path_from_url("tool"), "tool");
    assert_eq!(derive_path_from_url("https://example.com/team/lib"), "lib");
    assert_eq!(derive_path_from_url("https://example.com/team/lib/"), "lib");
    assert_eq!(derive_path_from_url("https://example.com/team/lib.git//"), "lib");
    assert_eq!(derive_path_from_url("/srv/lib/.git"), "lib");
    assert_eq!(derive_path_from_url("git@example.com:lib.git"), "lib");
}

#[test]
fn submodules_are_added_and_removed() {
    let mut b = installed();
    ok(subcontext::cli::add_submodule(&mut b, "/r", "https://example.com/tool.git", None));
    assert!(b.ran.iter().any(|c| c.contains("submodule add")), "{:?}", b.ran);
    let mut b = installed();
    assert!(subcontext::cli::remove_submodule(&mut b, "/r", "tool").is_err());
    let mut b = Fake::default().dir("/r/.git");
    assert!(subcontext::cli::add_submodule(&mut b, "/r", "url", Some("x")).is_err());
    let mut b = installed();
    assert_eq!(
        message(subcontext::cli::add_submodule(&mut b, "/r", "url", Some("../out"))),
        "path ../out is outside the repository root"
    );
}

#[test]
fn docs_are_written_below_a_directory() {
    let mut b = Fake::default();
    ok(subcontext::docs::dump_docs(&mut b, "/out", &[("README.md", "top"), ("a/b.md", "deep")]));
    assert!(b.files.iter().any(|(p, t)| p.ends_with("/README.md") && t == "top"));
    assert!(b.files.iter().any(|(p, t)| p.ends_with("/a/b.md") && t == "deep"));
}

#[test]
fn skills_are_installed_once() {
    let mut b = Fake::default().dir("/home/me/.helper/skills/old");
    ok(subcontext::skills::install_skills(&mut b, &env(), &[("new", "text"), ("old", "text")]));
    assert_eq!(b.files["/home/me/.helper/skills/new/SKILL.md"], "text");
    assert!(!b.files.contains_key("/home/me/.helper/skills/old/SKILL.md"));
    assert!(b.noted("Installed 1 skill(s)."));
    assert!(b.noted("Skipped 1 existing skill(s)."));
    let mut b = Fake::default();
    ok(subcontext::skills::install_skills(&mut b, &env(), &[]));
    assert!(b.noted("No skills to install."));
}

// ─── Boards ───────────────────────────────────────────────────────────

#[test]
fn a_board_is_rebuilt_from_its_tasks() {
    let mut b = Fake::default();
    let board = ok(subcontext::board::create_board_with(&mut b, "/sc", "b-1"));
    assert!(board.branch_name().contains("b-1"));
    let tasks = board.tasks_dir();
    b.files.insert(format!("{tasks}/one/TASK.md"), "---\nname: One\n---\n".to_string());
    b.files.insert(format!("{tasks}/one/sub/TASK.md"), "---\nuuid: s\nname: Sub\n---\n".to_string());
    b.files.insert(format!("{tasks}/two/TASK.md"), "body".to_string());
    b.statements.clear();
    assert_eq!(ok(board.rebuild_db(&mut b)), 3);
    let inserted: Vec<&String> = b.statements.iter().filter(|s| s.starts_with("INSERT")).collect();
    assert!(inserted.len() >= 3, "{:?}", b.statements);
}

#[test]
fn a_board_is_held_against_its_tree() {
    let mut b = Fake::default();
    let board = ok(subcontext::board::create_board_with(&mut b, "/sc", "b-1"));
    assert_eq!(ok(board.check(&mut b)), vec!["board.db does not exist".to_string()]);
    b.files.insert(board.db_path(), String::new());
    b.rows.insert("PRAGMA integrity_check".to_string(), vec!["ok".to_string()]);
    let tasks = board.tasks_dir();
    b.files.insert(format!("{tasks}/one/TASK.md"), "---\nuuid: a\n---\n".to_string());
    b.files.insert(format!("{tasks}/one/sub/TASK.md"), "---\nuuid: s\n---\n".to_string());
    b.rows.insert(
        "SELECT task_uuid FROM tasks".to_string(),
        vec!["a".to_string(), "s".to_string()],
    );
    assert!(ok(board.check(&mut b)).is_empty());
    b.rows.insert(
        "SELECT task_uuid FROM tasks".to_string(),
        vec!["a".to_string(), "gone".to_string()],
    );
    assert_eq!(
        ok(board.check(&mut b)),
        vec![
            "DB has task gone but no TASK.md found in tree".to_string(),
            "Tree has TASK.md with uuid s but no DB row".to_string()
        ]
    );
    b.rows.insert("PRAGMA integrity_check".to_string(), vec!["page 3 is lost".to_string()]);
    let issues = ok(board.check(&mut b));
    assert_eq!(issues[0], "SQLite integrity_check: page 3 is lost");
}

#[test]
fn subtasks_are_rows_with_a_parent() {
    let mut b = Fake::default();
    let board = ok(subcontext::board::create_board_with(&mut b, "/sc", "b-1"));
    let tasks = board.tasks_dir();
    b.files.insert(
        format!("{tasks}/one/TASK.md"),
        "---\nuuid: a\nkind: goal\nimportance: 2.5\n---\n".to_string(),
    );
    b.files.insert(
        format!("{tasks}/one/sub/TASK.md"),
        "---\nuuid: s\ndeadline: soon\n---\n".to_string(),
    );
    b.files.insert(format!("{tasks}/skipped/deep/TASK.md"), "---\nuuid: x\n---\n".to_string());
    b.statements.clear();
    assert_eq!(ok(board.rebuild_db(&mut b)), 2);
    let rows: Vec<&String> = b.statements.iter().filter(|s| s.starts_with("INSERT")).collect();
    assert_eq!(rows[0], "INSERT [a, one, active, goal, null, null, 2.5, null]");
    assert_eq!(rows[1], "INSERT [s, sub, active, todo, null, soon, 0, a]");
}

#[test]
fn a_directory_that_cannot_be_read_through_fails() {
    let mut b = Fake::default();
    let board = ok(subcontext::board::create_board_with(&mut b, "/sc", "b-1"));
    let tasks = board.tasks_dir();
    b.files.insert(board.db_path(), String::new());
    b.files.insert(format!("{tasks}/one/TASK.md"), "---\nuuid: a\n---\n".to_string());
    b.unreadable.insert(format!("{tasks}/one"));
    assert_eq!(message(board.rebuild_db(&mut b)), "an entry cannot be read");
    assert_eq!(message(board.check(&mut b)), "an entry cannot be read");
}

#[test]
fn a_new_board_is_filled_once() {
    let mut b = Fake::default();
    let board = ok(subcontext::board::create_board(&mut b, "/sc"));
    assert_eq!(board.uuid.len(), 36);
    assert_eq!(board.worktree_dir(), "/sc/board");
    assert!(b.files.contains_key("/sc/board/tasks/.gitkeep"));
    b.files.insert("/sc/board/tasks/one/TASK.md".to_string(), "---\nuuid: a\n---\n".to_string());
    b.statements.clear();
    ok(board.ensure_db(&mut b));
    assert_eq!(b.statements.iter().filter(|s| s.starts_with("INSERT")).count(), 1);
    b.files.insert(board.db_path(), String::new());
    b.statements.clear();
    ok(board.ensure_db(&mut b));
    assert_eq!(b.statements.iter().filter(|s| s.starts_with("INSERT")).count(), 0);
}

// ─── Files ────────────────────────────────────────────────────────────

#[test]
fn the_server_is_configured_for_every_project() {
    let mut b = Fake::default();
    ok(subcontext::mcp_config::install_global(&mut b, &env()));
    let text = b.files["/home/me/.helper.json"].clone();
    assert_eq!(
        text,
        "{\n  \"mcpServers\": {\n    \"subcontext\": {\n      \"type\": \"stdio\",\n      \
         \"command\": \"/bin/subcontext\",\n      \"args\": [\n        \"mcp\"\n      ]\n    }\n  }\n}\n"
    );
    assert!(b.noted("[subcontext] Configured MCP server in ~/.helper.json."));
    ok(subcontext::mcp_config::install_global(&mut b, &env()));
    assert_eq!(b.files["/home/me/.helper.json"], text);
    // What else is configured stays, and so does a server of our name.
    let mut b = Fake::default()
        .file("/home/me/.helper.json", r#"{"n":1,"mcpServers":{"subcontext":{"command":"x"}}}"#);
    ok(subcontext::mcp_config::install_global(&mut b, &env()));
    let text = &b.files["/home/me/.helper.json"];
    assert!(text.contains("\"n\": 1") && text.contains("\"command\": \"x\""), "{text}");
    let mut b = Fake::default().file("/home/me/.helper.json", "[]");
    assert_eq!(
        message(subcontext::mcp_config::install_global(&mut b, &env())),
        "~/.helper.json root is not an object"
    );
    let mut e = env();
    e.home = None;
    assert_eq!(
        message(subcontext::mcp_config::install_global(&mut b, &e)),
        "cannot determine home directory"
    );
}

#[test]
fn the_server_is_configured_in_a_file() {
    let mut b = Fake::default();
    ok(subcontext::mcp_config::merge_mcp_config(&mut b, "/r"));
    let text = b.files["/r/.mcp.json"].clone();
    assert!(text.ends_with("}\n"), "{text}");
    let config: serde_json::Value = serde_json::from_str(&text).unwrap();
    assert_eq!(config["mcpServers"]["subcontext"]["command"], "git");
    assert_eq!(config["mcpServers"]["subcontext"]["args"][1], "mcp");
    ok(subcontext::mcp_config::merge_mcp_config(&mut b, "/r"));
    assert_eq!(b.files["/r/.mcp.json"], text);
    ok(subcontext::mcp_config::remove_mcp_config(&mut b, "/r"));
    assert!(!b.files.contains_key("/r/.mcp.json"));
    // What others put there stays.
    b.files.insert("/r/.mcp.json".to_string(), r#"{"mcpServers":{"x":{}}}"#.to_string());
    ok(subcontext::mcp_config::merge_mcp_config(&mut b, "/r"));
    ok(subcontext::mcp_config::remove_mcp_config(&mut b, "/r"));
    let left: serde_json::Value = serde_json::from_str(&b.files["/r/.mcp.json"]).unwrap();
    assert!(left["mcpServers"]["x"].is_object());
    assert!(left["mcpServers"]["subcontext"].is_null());
}

#[test]
fn written_namespaces_are_read_back() {
    let mut b = Fake::default();
    let mut names = ok(subcontext::namespace::read_namespaces(&mut b, "/c"));
    assert!(names.is_empty());
    ok(subcontext::namespace::set_namespace(&mut names, &["tools", "editor"], "u-1"));
    ok(subcontext::namespace::write_namespaces(&mut b, "/c", &names));
    assert_eq!(ok(subcontext::namespace::read_namespaces(&mut b, "/c")), names);
    assert_eq!(
        b.files["/c/namespaces.json"],
        "{\n  \"tools\": {\n    \"editor\": \"u-1\"\n  }\n}\n"
    );
    b.files.insert("/c/namespaces.json".to_string(), "{".to_string());
    assert!(message(subcontext::namespace::read_namespaces(&mut b, "/c"))
        .starts_with("invalid JSON in namespaces.json"));
}

#[test]
fn saving_leaves_the_checkout_as_it_is() {
    let mut b = installed()
        .file("/r/a", "new")
        .file("/r/d/b", "other")
        .answers("ls-files", "a\nd/b\nmissing")
        .answers("status --porcelain", " M a");
    let before: Vec<(String, String)> = b
        .files
        .iter()
        .filter(|(p, _)| !p.starts_with("/r/.git/"))
        .map(|(p, t)| (p.clone(), t.clone()))
        .collect();
    let ctx = CheckoutContext::main_only("/r");
    ok(subcontext::overlay::save_overlay(&mut b, &ctx, "m"));
    let after: Vec<(String, String)> = b
        .files
        .iter()
        .filter(|(p, _)| !p.starts_with("/r/.git/"))
        .map(|(p, t)| (p.clone(), t.clone()))
        .collect();
    assert_eq!(before, after);
    assert_eq!(b.files["/r/.git/.subcontext/work/d/b"], "other");
}

#[test]
fn a_new_branch_forks_and_an_orphan_does_not() {
    let ctx = CheckoutContext::main_only("/r");
    let previous = Some("overlay/main".to_string());
    let mut b = installed();
    let source = ok(subcontext::hook::determine_fork_source(&mut b, &ctx, "c", "c", &previous));
    assert_eq!(source, previous);
    let mut b = installed().refuses("rev-parse --verify HEAD");
    let source = ok(subcontext::hook::determine_fork_source(&mut b, &ctx, "c", "c", &previous));
    assert_eq!(source, None);
    let mut b = installed().refuses("merge-base c d");
    let source = ok(subcontext::hook::determine_fork_source(&mut b, &ctx, "c", "d", &previous));
    assert_eq!(source, None);
    // A worktree without an overlay forks that of the main checkout.
    let wt = CheckoutContext {
        main_root: "/r".to_string(),
        checkout_root: "/wt".to_string(),
        worktree_name: Some("wt".to_string()),
    };
    let mut b = installed();
    b.git.insert("symbolic-ref --short HEAD".to_string(), Ok("overlay/main".to_string()));
    let source = ok(subcontext::hook::determine_fork_source(&mut b, &wt, "c", "c", &None));
    assert_eq!(source, previous);
}

#[test]
fn branches_of_one_segment_have_their_own_overlay() {
    assert_eq!(overlay_branch_name("main"), "overlay/main");
    assert_eq!(overlay_branch_name("feature/x"), "overlay/feature-x");
    assert_eq!(overlay_branch_name("..."), "overlay/default");
    assert_ne!(overlay_branch_name("a"), overlay_branch_name("b"));
}

#[test]
fn horizons_are_numbers_with_a_unit() {
    assert_eq!(parse_horizon("0"), Some((0, Unit::Second)));
    assert_eq!(parse_horizon("2w"), Some((2, Unit::Week)));
    assert_eq!(parse_horizon("3mo"), Some((3, Unit::Month)));
    assert_eq!(parse_horizon("5m"), Some((5, Unit::Minute)));
    assert_eq!(parse_horizon("1y"), Some((1, Unit::Year)));
    assert_eq!(parse_horizon("10"), None);
    assert_eq!(parse_horizon("d"), None);
    assert_eq!(parse_horizon("x1d"), None);
}
