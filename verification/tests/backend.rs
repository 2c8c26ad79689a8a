//! The high-level git helpers of a backend, against a small model of git.

use std::collections::{BTreeMap, BTreeSet};

use subcontext::backend::{
    Backend, ExitReport, GitInvocation, Listing, OutputReport, SqlValue, StoreRequest, TaskFields,
    TaskScope, TaskSource,
};
use subcontext::failure::{fail, Failure};
use subcontext::world::World;

#[derive(Clone, Default)]
struct Repo {
    bare: bool,
    branch: String,
    heads: BTreeMap<String, String>,
    untracked: BTreeSet<String>,
    staged: BTreeSet<String>,
}

/// Repositories by the path of their checkout, and a worktree by the path of the
/// repository that it belongs to.
#[derive(Default)]
struct ToyGit {
    repos: BTreeMap<String, Repo>,
    worktrees: BTreeMap<String, (String, String)>,
    commits: u32,
}

impl ToyGit {
    fn seed_repo(&mut self, path: &str) {
        self.init(path, path).ok().unwrap();
        self.git_in(path, &["symbolic-ref", "HEAD", "refs/heads/main"]).ok().unwrap();
        self.git_in(path, &["commit", "--allow-empty", "-m", "init"]).ok().unwrap();
    }

    fn repo(&mut self, cwd: &str) -> Result<&mut Repo, Failure> {
        self.repos.get_mut(cwd).ok_or_else(|| fail("not a git repository"))
    }

    fn create_file(&mut self, repo: &str, name: &str) {
        self.repos.get_mut(repo).unwrap().untracked.insert(name.to_string());
    }

    fn is_git_dir(&self, path: &str) -> bool {
        let root = path.strip_suffix("/.git").unwrap_or(path);
        match self.repos.get(root) {
            Some(repo) => !repo.bare,
            None => self.worktrees.contains_key(root),
        }
    }

    fn has_bare_head(&self, path: &str) -> bool {
        match path.strip_suffix("/HEAD").and_then(|root| self.repos.get(root)) {
            Some(repo) => repo.bare,
            None => false,
        }
    }

    fn commit_now(&mut self, cwd: &str) -> Result<String, Failure> {
        self.commits += 1;
        let sha = format!("{:040x}", self.commits);
        let repo = self.repo(cwd)?;
        let branch = repo.branch.clone();
        repo.heads.insert(branch, sha.clone());
        repo.staged.clear();
        Ok(sha)
    }
}

fn refused<T>() -> Result<T, Failure> {
    Err(fail("not part of this model"))
}

impl Backend for ToyGit {
    fn world(&self) -> World {
        unreachable!("the account is for proofs alone")
    }

    fn git(&mut self, inv: &GitInvocation<'_>) -> Result<String, Failure> {
        let cwd = inv.cwd;
        match inv.args {
            ["init", path] => {
                let repo = Repo { branch: "trunk".to_string(), ..Repo::default() };
                self.repos.insert(path.to_string(), repo);
                Ok(String::new())
            }
            ["init", "--bare", path] => {
                let repo = Repo { bare: true, branch: "trunk".to_string(), ..Repo::default() };
                self.repos.insert(path.to_string(), repo);
                Ok(String::new())
            }
            ["clone", url, dest] => {
                let copy = self.repo(url)?.clone();
                self.repos.insert(dest.to_string(), copy);
                Ok(String::new())
            }
            ["clone", "--bare", url, dest] => {
                let mut copy = self.repo(url)?.clone();
                copy.bare = true;
                self.repos.insert(dest.to_string(), copy);
                Ok(String::new())
            }
            ["symbolic-ref", "HEAD", reference] => {
                let name = reference.trim_start_matches("refs/heads/").to_string();
                self.repo(cwd)?.branch = name;
                Ok(String::new())
            }
            ["symbolic-ref", "--short", "HEAD"] => match self.worktrees.get(cwd) {
                Some((_, branch)) => Ok(branch.clone()),
                None => Ok(self.repo(cwd)?.branch.clone()),
            },
            ["commit", "--allow-empty", "-m", _] | ["commit", "-m", _] => self.commit_now(cwd),
            ["add", "-A"] => {
                let repo = self.repo(cwd)?;
                let new = std::mem::take(&mut repo.untracked);
                repo.staged.extend(new);
                Ok(String::new())
            }
            ["status", "--porcelain"] => {
                let repo = self.repo(cwd)?;
                let mut lines: Vec<String> =
                    repo.staged.iter().map(|f| format!("A  {f}")).collect();
                lines.extend(repo.untracked.iter().map(|f| format!("?? {f}")));
                Ok(lines.join("\n"))
            }
            ["rev-parse", "HEAD"] => {
                let repo = self.repo(cwd)?;
                let branch = repo.branch.clone();
                repo.heads.get(&branch).cloned().ok_or_else(|| fail("no commit yet"))
            }
            ["checkout", "-b", branch] => {
                let repo = self.repo(cwd)?;
                let head = repo.heads.get(&repo.branch).cloned().unwrap_or_default();
                repo.heads.insert(branch.to_string(), head);
                repo.branch = branch.to_string();
                Ok(String::new())
            }
            ["checkout", branch] => {
                let repo = self.repo(cwd)?;
                if !repo.heads.contains_key(*branch) {
                    return Err(fail("no such branch"));
                }
                repo.branch = branch.to_string();
                Ok(String::new())
            }
            ["branch", new, from] => {
                let repo = self.repo(cwd)?;
                let head = repo.heads.get(*from).cloned().ok_or_else(|| fail("no such branch"))?;
                repo.heads.insert(new.to_string(), head);
                Ok(String::new())
            }
            ["worktree", "add", path, branch] => {
                self.worktrees.insert(path.to_string(), (cwd.to_string(), branch.to_string()));
                Ok(String::new())
            }
            ["worktree", "remove", path] => {
                self.worktrees.remove(*path);
                Ok(String::new())
            }
            _ => refused(),
        }
    }

    fn read_to_string(&mut self, _path: &str) -> Result<String, Failure> {
        refused()
    }
    fn write(&mut self, _path: &str, _contents: &[u8]) -> Result<(), Failure> {
        refused()
    }
    fn create_dir_all(&mut self, _path: &str) -> Result<(), Failure> {
        refused()
    }
    fn copy(&mut self, _from: &str, _to: &str) -> Result<u64, Failure> {
        refused()
    }
    fn remove_file(&mut self, _path: &str) -> Result<(), Failure> {
        refused()
    }
    fn remove_dir(&mut self, _path: &str) -> Result<(), Failure> {
        refused()
    }
    fn remove_dir_all(&mut self, _path: &str) -> Result<(), Failure> {
        refused()
    }
    fn path_exists(&mut self, path: &str) -> bool {
        self.repos.contains_key(path)
            || self.worktrees.contains_key(path)
            || self.is_git_dir(path)
            || self.has_bare_head(path)
    }
    fn is_file(&mut self, path: &str) -> bool {
        self.has_bare_head(path)
    }
    fn is_dir(&mut self, path: &str) -> bool {
        self.repos.contains_key(path) || (path.ends_with("/.git") && self.is_git_dir(path))
    }
    fn canonicalize(&mut self, _path: &str) -> Result<String, Failure> {
        refused()
    }
    fn read_dir(&mut self, _path: &str) -> Result<Vec<String>, Failure> {
        refused()
    }
    fn list_dir(&mut self, _path: &str) -> Result<Listing, Failure> {
        refused()
    }
    fn metadata_mode(&mut self, _path: &str) -> Result<u32, Failure> {
        refused()
    }
    fn set_permissions_mode(&mut self, _path: &str, _mode: u32) -> Result<(), Failure> {
        refused()
    }
    fn current_exe(&mut self) -> Result<String, Failure> {
        refused()
    }
    fn run_command(
        &mut self,
        _program: &str,
        _args: &[&str],
        _cwd: &str,
    ) -> Result<ExitReport, Failure> {
        refused()
    }
    fn capture(
        &mut self,
        _program: &str,
        _args: &[&str],
        _cwd: Option<&str>,
    ) -> Result<OutputReport, Failure> {
        refused()
    }
    fn store(&mut self, _request: &StoreRequest<'_>) -> Result<String, Failure> {
        refused()
    }
    fn add_task(
        &mut self,
        _scope: &TaskScope,
        _task: &TaskFields,
        _source: Option<&TaskSource>,
    ) -> Result<(String, String), Failure> {
        refused()
    }
    fn sqlite_execute(
        &mut self,
        _db: &str,
        _sql: &str,
        _params: &[SqlValue],
    ) -> Result<(), Failure> {
        refused()
    }
    fn sqlite_texts(&mut self, _db: &str, _sql: &str) -> Result<Vec<String>, Failure> {
        refused()
    }
    fn note(&mut self, _line: &str) {}
}

fn ok<T>(r: Result<T, Failure>) -> T {
    match r {
        Ok(v) => v,
        Err(e) => panic!("{}", e.chain_text()),
    }
}

// ─── init / init_bare ─────────────────────────────────────────────────

#[test]
fn init_creates_non_bare_repo() {
    let mut backend = ToyGit::default();
    ok(backend.init("/init/repo", "/init/repo"));
    assert!(backend.is_dir("/init/repo/.git"), ".git directory should exist");
}

#[test]
fn init_bare_creates_bare_repo() {
    let mut backend = ToyGit::default();
    ok(backend.init_bare("/init-bare", "/init-bare/bare.git"));
    assert!(backend.is_dir("/init-bare/bare.git"), "bare repo dir should exist");
    // A bare repo has HEAD at the top level, not inside .git/.
    assert!(backend.is_file("/init-bare/bare.git/HEAD"), "bare HEAD should exist");
    assert!(
        !backend.path_exists("/init-bare/bare.git/.git"),
        "bare repo must not have a .git/ subdir"
    );
}

// ─── clone / clone_bare ───────────────────────────────────────────────

#[test]
fn clone_copies_repo() {
    let mut backend = ToyGit::default();
    backend.seed_repo("/clone/src");
    ok(backend.clone("/clone", "/clone/src", "/clone/dest"));
    assert!(backend.is_dir("/clone/dest/.git"));
    // Cloned repo inherits the initial commit.
    let head = ok(backend.rev_parse("/clone/dest", "HEAD"));
    let src_head = ok(backend.rev_parse("/clone/src", "HEAD"));
    assert_eq!(head, src_head);
}

#[test]
fn clone_bare_copies_as_bare() {
    let mut backend = ToyGit::default();
    backend.seed_repo("/clone-bare/src");
    ok(backend.clone_bare("/clone-bare", "/clone-bare/src", "/clone-bare/mirror.git"));
    assert!(backend.is_file("/clone-bare/mirror.git/HEAD"));
    assert!(!backend.path_exists("/clone-bare/mirror.git/.git"));
}

// ─── add / commit / status_porcelain ──────────────────────────────────

#[test]
fn add_all_and_commit_clear_status() {
    let mut backend = ToyGit::default();
    backend.seed_repo("/commit");
    backend.create_file("/commit", "hello.txt");
    assert!(
        !ok(backend.status_porcelain("/commit")).is_empty(),
        "new file should be visible as untracked"
    );

    ok(backend.add_all("/commit"));
    assert!(ok(backend.status_porcelain("/commit")).contains("hello.txt"));

    ok(backend.commit("/commit", "add hello"));
    assert_eq!(
        ok(backend.status_porcelain("/commit")),
        "",
        "working tree should be clean after commit"
    );
}

// ─── branch / checkout / rev_parse ────────────────────────────────────

#[test]
fn current_branch_and_checkout_new_branch() {
    let mut backend = ToyGit::default();
    backend.seed_repo("/branch");
    assert_eq!(ok(backend.current_branch("/branch")), "main");

    ok(backend.checkout_new_branch("/branch", "feature/x"));
    assert_eq!(ok(backend.current_branch("/branch")), "feature/x");

    ok(backend.checkout("/branch", "main"));
    assert_eq!(ok(backend.current_branch("/branch")), "main");
}

#[test]
fn rev_parse_resolves_head() {
    let mut backend = ToyGit::default();
    backend.seed_repo("/rev-parse");
    let sha = ok(backend.rev_parse("/rev-parse", "HEAD"));
    assert_eq!(sha.len(), 40, "HEAD should resolve to a 40-char SHA");
    assert!(sha.chars().all(|c| c.is_ascii_hexdigit()));
}

// ─── worktree_add / worktree_remove ───────────────────────────────────

#[test]
fn worktree_add_and_remove() {
    let mut backend = ToyGit::default();
    backend.seed_repo("/worktree/repo");

    // Create a branch to attach the worktree to.
    ok(backend.git_in("/worktree/repo", &["branch", "side", "main"]));
    ok(backend.worktree_add("/worktree/repo", "/worktree/side-wt", "side"));

    assert!(backend.path_exists("/worktree/side-wt/.git"), "worktree .git file should exist");
    assert_eq!(ok(backend.current_branch("/worktree/side-wt")), "side");

    ok(backend.worktree_remove("/worktree/repo", "/worktree/side-wt"));
    assert!(!backend.path_exists("/worktree/side-wt"), "worktree directory should be removed");
}

// ─── git / git_in still exposed ───────────────────────────────────────

#[test]
fn git_in_is_equivalent_to_raw_git() {
    let mut backend = ToyGit::default();
    backend.seed_repo("/raw");
    let via_helper = ok(backend.git_in("/raw", &["rev-parse", "HEAD"]));
    let via_method = ok(backend.rev_parse("/raw", "HEAD"));
    assert_eq!(via_helper, via_method);
}
