//! Git invocations, the layout of a subcontext, and how a checkout is found.

use vstd::prelude::*;

use crate::backend::{argv3, Backend, GitInvocation};
use crate::failure::{context, contextual, fail, failed, outcome, Failure, Outcome};
use crate::paths::{
    file_name, file_name_of, join_path, lemma_parent_shorter, parent, parent_of, path_join,
};
use crate::text::{cat, cat3, chars_of, strip_prefix, trim, trimmed, without_prefix, Text};
use crate::world::World;

verus! {

// ─── Running git ─────────────────────────────────────────────────────

/// Run a git command with the given args in the given directory.
/// Returns stdout as a trimmed string.
pub fn run_git<B: Backend>(backend: &mut B, args: &[&str], cwd: &str) -> (r: Result<
    String,
    Failure,
>)
    ensures
        (final(backend).world(), outcome(r)) == old(backend).world().git(args.deep_view(), cwd@),
{
    backend.git(&GitInvocation::new(args, cwd))
}

impl World {
    /// A git command against the bare repo `git_dir`.
    pub open spec fn git_in_bare(self, args: Seq<Text>, git_dir: Text, cwd: Text) -> (
        World,
        Outcome<Text>,
    ) {
        self.git(seq!["--git-dir="@ + git_dir] + args, cwd)
    }

    /// A git command in the subcontext bare repo of the repository at `root`.
    pub open spec fn subcontext_git(self, args: Seq<Text>, root: Text) -> (World, Outcome<Text>) {
        self.git_in_bare(args, repo_path(root), root)
    }

    /// A git command in the overlay work directory `work`.
    pub open spec fn work_git(self, args: Seq<Text>, work: Text) -> (World, Outcome<Text>) {
        let (w, gitdir) = gitdir_run(self, work);
        match gitdir {
            Err(e) => (w, Err(e)),
            Ok(gitdir) => w.git_env(
                args,
                work,
                seq![("GIT_DIR"@, gitdir), ("GIT_WORK_TREE"@, work)],
                seq![
                    "GIT_INDEX_FILE"@,
                    "GIT_OBJECT_DIRECTORY"@,
                    "GIT_ALTERNATE_OBJECT_DIRECTORIES"@,
                ],
            ),
        }
    }
}

/// Run a git command in the subcontext bare repo.
pub fn run_subcontext_git<B: Backend>(backend: &mut B, args: &[&str], root: &str) -> (r: Result<
    String,
    Failure,
>)
    ensures
        (final(backend).world(), outcome(r)) == old(backend).world().subcontext_git(
            args.deep_view(),
            root@,
        ),
{
    let repo = repo_dir(root);
    run_git_in_bare(backend, args, repo.as_str(), root)
}

/// Run a git command against an arbitrary bare repo (by explicit git-dir).
/// Used by both the per-repo subcontext bare repo and the global one.
pub fn run_git_in_bare<B: Backend>(backend: &mut B, args: &[&str], git_dir: &str, cwd: &str) -> (r:
    Result<String, Failure>)
    ensures
        (final(backend).world(), outcome(r)) == old(backend).world().git_in_bare(
            args.deep_view(),
            git_dir@,
            cwd@,
        ),
{
    let git_dir_flag = cat("--git-dir=", git_dir);
    let mut full_args: Vec<&str> = Vec::new();
    full_args.push(git_dir_flag.as_str());
    let mut i: usize = 0;
    while i < args.len()
        invariant
            i <= args@.len(),
            full_args@.len() == i + 1,
            full_args@[0]@ == "--git-dir="@ + git_dir@,
            forall|j: int| 0 <= j < i ==> full_args@[j + 1]@ == args@[j]@,
        decreases args@.len() - i,
    {
        full_args.push(args[i]);
        i = i + 1;
    }
    let all: &[&str] = full_args.as_slice();
    assert(all.deep_view() =~= seq!["--git-dir="@ + git_dir@] + args.deep_view());
    backend.git(&GitInvocation::new(all, cwd))
}

/// The path in a `.git` file.
pub open spec fn gitdir_in(content: Text) -> Text {
    trimmed(
        match without_prefix(content, "gitdir: "@) {
            Some(rest) => rest,
            None => content,
        },
    )
}

/// The path that the content of a `.git` file names.
pub fn gitdir_text(content: &str) -> (r: String)
    ensures
        r@ == gitdir_in(content@),
{
    match strip_prefix(content, "gitdir: ") {
        Some(rest) => trim(rest.as_str()),
        None => trim(content),
    }
}

/// The git directory of the work directory `work`: the one that its `.git` file
/// names, or its `.git`.
pub open spec fn gitdir_run(w: World, work: Text) -> (World, Outcome<Text>) {
    let dot_git = path_join(work, ".git"@);
    let (w, is_file) = w.is_file(dot_git);
    if is_file {
        let (w, content) = w.read(dot_git);
        match contextual(content, "failed to read work/.git file"@) {
            Err(e) => (w, Err(e)),
            Ok(content) => (w, Ok(path_join(work, gitdir_in(content)))),
        }
    } else {
        (w, Ok(dot_git))
    }
}

/// Find the git directory of a work directory.
pub fn work_gitdir<B: Backend>(backend: &mut B, work: &str) -> (r: Result<String, Failure>)
    ensures
        (final(backend).world(), outcome(r)) == gitdir_run(old(backend).world(), work@),
{
    let dot_git = join_path(work, ".git");
    if backend.is_file(dot_git.as_str()) {
        let content = context(
            backend.read_to_string(dot_git.as_str()),
            "failed to read work/.git file",
        )?;
        let path = gitdir_text(content.as_str());
        Ok(join_path(work, path.as_str()))
    } else {
        Ok(dot_git)
    }
}

/// Run a git command in an overlay work directory.
/// Must set GIT_DIR explicitly because work dirs live inside .git/ and
/// git's directory walk would find the main repo's .git dir first.
pub fn run_work_git<B: Backend>(backend: &mut B, args: &[&str], work: &str) -> (r: Result<
    String,
    Failure,
>)
    ensures
        (final(backend).world(), outcome(r)) == old(backend).world().work_git(
            args.deep_view(),
            work@,
        ),
{
    let gitdir = work_gitdir(backend, work)?;
    let env_set = [("GIT_DIR", gitdir.as_str()), ("GIT_WORK_TREE", work)];
    let env_remove = argv3(
        "GIT_INDEX_FILE",
        "GIT_OBJECT_DIRECTORY",
        "GIT_ALTERNATE_OBJECT_DIRECTORIES",
    );
    assert(env_set.deep_view() =~= seq![("GIT_DIR"@, gitdir@), ("GIT_WORK_TREE"@, work@)]);
    backend.git(
        &GitInvocation { args, cwd: work, env_set: &env_set, env_remove: &env_remove },
    )
}

// ─── Path helpers ────────────────────────────────────────────────────

/// Where the subcontext of the repository at `root` lies.
pub open spec fn subcontext_path(root: Text) -> Text {
    path_join(path_join(root, ".git"@), ".subcontext"@)
}

/// Where its bare repo lies.
pub open spec fn repo_path(root: Text) -> Text {
    path_join(subcontext_path(root), "repo"@)
}

/// Where its config branch is checked out.
pub open spec fn config_path(root: Text) -> Text {
    path_join(subcontext_path(root), "config"@)
}

/// Where the overlay of the main checkout is checked out.
pub open spec fn work_path(root: Text) -> Text {
    path_join(subcontext_path(root), "work"@)
}

/// Where its state branch is checked out.
pub open spec fn state_path(root: Text) -> Text {
    path_join(subcontext_path(root), "state"@)
}

/// .git/.subcontext
pub fn subcontext_dir(root: &str) -> (r: String)
    ensures
        r@ == subcontext_path(root@),
{
    let git = join_path(root, ".git");
    join_path(git.as_str(), ".subcontext")
}

/// .git/.subcontext/work (main checkout's overlay worktree)
pub fn work_dir(root: &str) -> (r: String)
    ensures
        r@ == work_path(root@),
{
    join_path(subcontext_dir(root).as_str(), "work")
}

/// .git/.subcontext/config
pub fn config_dir(root: &str) -> (r: String)
    ensures
        r@ == config_path(root@),
{
    join_path(subcontext_dir(root).as_str(), "config")
}

/// .git/.subcontext/repo
pub fn repo_dir(root: &str) -> (r: String)
    ensures
        r@ == repo_path(root@),
{
    join_path(subcontext_dir(root).as_str(), "repo")
}

/// .git/.subcontext/state
pub fn state_dir(root: &str) -> (r: String)
    ensures
        r@ == state_path(root@),
{
    join_path(subcontext_dir(root).as_str(), "state")
}

// ─── Checkout context ────────────────────────────────────────────────

/// Identifies a checkout location. For the main checkout, main_root == checkout_root.
/// For a linked worktree, they differ and worktree_name is set.
pub struct CheckoutContext {
    /// The main repo root (has .git/ directory containing .subcontext/).
    pub main_root: String,
    /// Where overlay files are applied. Same as main_root for the main checkout.
    pub checkout_root: String,
    /// Git worktree name (from .git/worktrees/<name>). None for main checkout.
    pub worktree_name: Option<String>,
}

/// The view of a [`CheckoutContext`].
pub struct Checkout {
    pub main_root: Text,
    pub checkout_root: Text,
    pub worktree_name: Option<Text>,
}

impl View for CheckoutContext {
    type V = Checkout;

    open spec fn view(&self) -> Checkout {
        Checkout {
            main_root: self.main_root@,
            checkout_root: self.checkout_root@,
            worktree_name: self.worktree_name.deep_view(),
        }
    }
}

impl DeepView for CheckoutContext {
    type V = Checkout;

    open spec fn deep_view(&self) -> Checkout {
        self@
    }
}

impl Checkout {
    /// The main checkout of the repository at `root`.
    pub open spec fn main_at(root: Text) -> Checkout {
        Checkout { main_root: root, checkout_root: root, worktree_name: None }
    }

    /// The overlay work directory of this checkout.
    pub open spec fn overlay_work(self) -> Text {
        match self.worktree_name {
            None => work_path(self.main_root),
            Some(name) => path_join(
                path_join(subcontext_path(self.main_root), "worktrees"@),
                name,
            ),
        }
    }
}

impl CheckoutContext {
    /// Context for the main checkout (not a worktree).
    pub fn main_only(root: &str) -> (r: Self)
        ensures
            r@ == Checkout::main_at(root@),
    {
        CheckoutContext {
            main_root: root.to_owned(),
            checkout_root: root.to_owned(),
            worktree_name: None,
        }
    }

    /// The overlay work directory for this checkout.
    pub fn overlay_work_dir(&self) -> (r: String)
        ensures
            r@ == self@.overlay_work(),
    {
        match &self.worktree_name {
            None => work_dir(self.main_root.as_str()),
            Some(name) => {
                let sc_dir = subcontext_dir(self.main_root.as_str());
                let worktrees = join_path(sc_dir.as_str(), "worktrees");
                join_path(worktrees.as_str(), name.as_str())
            },
        }
    }

    pub fn is_worktree(&self) -> (r: bool)
        ensures
            r == self@.worktree_name is Some,
    {
        self.worktree_name.is_some()
    }
}

/// The checkout that the git directory `gitdir` of a linked worktree at
/// `current` belongs to: `<main>/.git/worktrees/<name>`.
pub open spec fn worktree_checkout(current: Text, gitdir: Text) -> Outcome<Checkout> {
    match file_name_of(gitdir) {
        None => Err(failed("invalid worktree gitdir"@)),
        Some(name) => match great_parent(gitdir) {
            None => Err(failed("failed to derive main .git from worktree gitdir"@)),
            Some(main_git) => match parent_of(main_git) {
                None => Err(failed("failed to derive main repo root"@)),
                Some(main_root) => Ok(
                    Checkout { main_root, checkout_root: current, worktree_name: Some(name) },
                ),
            },
        },
    }
}

/// The parent of the parent.
pub open spec fn great_parent(path: Text) -> Option<Text> {
    match parent_of(path) {
        None => None,
        Some(up) => parent_of(up),
    }
}

/// Two parts up.
pub fn grandparent(path: &str) -> (r: Option<String>)
    ensures
        r.deep_view() == great_parent(path@),
{
    match parent(path) {
        None => None,
        Some(up) => parent(up.as_str()),
    }
}

/// Derive the checkout of a linked worktree from its git directory.
pub fn checkout_of_worktree(current: &str, gitdir: &str) -> (r: Result<CheckoutContext, Failure>)
    ensures
        outcome(r) == worktree_checkout(current@, gitdir@),
{
    let name = match file_name(gitdir) {
        Some(name) => name,
        None => return Err(fail("invalid worktree gitdir")),
    };
    let main_git = match grandparent(gitdir) {
        Some(up) => up,
        None => return Err(fail("failed to derive main .git from worktree gitdir")),
    };
    let main_root = match parent(main_git.as_str()) {
        Some(up) => up,
        None => return Err(fail("failed to derive main repo root")),
    };
    Ok(CheckoutContext { main_root, checkout_root: current.to_owned(), worktree_name: Some(name) })
}

/// The search for a checkout, from the directory `current` upwards.
pub open spec fn checkout_above(w: World, current: Text) -> (World, Outcome<Checkout>)
    decreases current.len(),
{
    let dot_git = path_join(current, ".git"@);
    let (w, is_dir) = w.is_dir(dot_git);
    if is_dir {
        (w, Ok(Checkout::main_at(current)))
    } else {
        let (w, is_file) = w.is_file(dot_git);
        if is_file {
            let (w, content) = w.read(dot_git);
            match contextual(content, "failed to read .git worktree file"@) {
                Err(e) => (w, Err(e)),
                Ok(content) => {
                    let (w, gitdir) = w.canonicalize(path_join(current, gitdir_in(content)));
                    match contextual(gitdir, "failed to canonicalize worktree gitdir"@) {
                        Err(e) => (w, Err(e)),
                        Ok(gitdir) => (w, worktree_checkout(current, gitdir)),
                    }
                },
            }
        } else {
            proof {
                lemma_parent_shorter(current);
            }
            match parent_of(current) {
                Some(up) => checkout_above(w, up),
                None => (w, Err(failed("not inside a Git repository"@))),
            }
        }
    }
}

/// The search for the checkout that holds the directory `start`.
pub open spec fn find_checkout_run(w: World, start: Text) -> (World, Outcome<Checkout>) {
    let (w, current) = w.canonicalize(start);
    match contextual(current, "failed to canonicalize start path"@) {
        Err(e) => (w, Err(e)),
        Ok(current) => checkout_above(w, current),
    }
}

/// Resolve the checkout context from the current directory.
/// Works for both the main checkout and linked worktrees.
pub fn find_checkout_context<B: Backend>(backend: &mut B, start: &str) -> (r: Result<
    CheckoutContext,
    Failure,
>)
    ensures
        (final(backend).world(), outcome(r)) == find_checkout_run(old(backend).world(), start@),
{
    let mut current = context(backend.canonicalize(start), "failed to canonicalize start path")?;
    let ghost w0 = backend.world();
    let ghost first = current@;
    loop
        invariant
            checkout_above(backend.world(), current@) == checkout_above(w0, first),
            find_checkout_run(old(backend).world(), start@) == checkout_above(w0, first),
        decreases current@.len(),
    {
        let dot_git = join_path(current.as_str(), ".git");
        if backend.is_dir(dot_git.as_str()) {
            return Ok(CheckoutContext::main_only(current.as_str()));
        }
        if backend.is_file(dot_git.as_str()) {
            let content = context(
                backend.read_to_string(dot_git.as_str()),
                "failed to read .git worktree file",
            )?;
            let named = gitdir_text(content.as_str());
            let gitdir = join_path(current.as_str(), named.as_str());
            let gitdir = context(
                backend.canonicalize(gitdir.as_str()),
                "failed to canonicalize worktree gitdir",
            )?;
            return checkout_of_worktree(current.as_str(), gitdir.as_str());
        }
        proof {
            lemma_parent_shorter(current@);
        }
        match parent(current.as_str()) {
            Some(up) => {
                current = up;
            },
            None => {
                return Err(fail("not inside a Git repository"));
            },
        }
    }
}

/// What is said where a linked worktree is found instead of the main checkout.
pub open spec fn linked_worktree_message(root: Text) -> Text {
    "found .git file at "@ + root
        + " — this is a linked worktree, not the main checkout. Run subcontext install from the main checkout."@
}

/// The search for the main checkout, from the directory `current` upwards.
pub open spec fn main_root_above(w: World, current: Text) -> (World, Outcome<Text>)
    decreases current.len(),
{
    proof {
        lemma_parent_shorter(current);
    }
    let dot_git = path_join(current, ".git"@);
    let (w, there) = w.path_exists(dot_git);
    let (w, is_file) = if there {
        w.is_file(dot_git)
    } else {
        (w, false)
    };
    let (w, is_dir) = if there && !is_file {
        w.is_dir(dot_git)
    } else {
        (w, false)
    };
    if is_file {
        (w, Err(failed(linked_worktree_message(current))))
    } else if is_dir {
        (w, Ok(current))
    } else {
        match parent_of(current) {
            Some(up) => main_root_above(w, up),
            None => (
                w,
                Err(failed("not inside a Git repository (no .git/ directory found)"@)),
            ),
        }
    }
}

/// The search for the main checkout that holds the directory `start`.
pub open spec fn find_main_run(w: World, start: Text) -> (World, Outcome<Text>) {
    let (w, current) = w.canonicalize(start);
    match contextual(current, "failed to canonicalize start path"@) {
        Err(e) => (w, Err(e)),
        Ok(current) => main_root_above(w, current),
    }
}

/// Walk up from `start` to find a directory containing a `.git/` **directory**
/// (not a file, which indicates a linked worktree). Returns the repo root.
pub fn find_main_git_root<B: Backend>(backend: &mut B, start: &str) -> (r: Result<String, Failure>)
    ensures
        (final(backend).world(), outcome(r)) == find_main_run(old(backend).world(), start@),
{
    let mut current = context(backend.canonicalize(start), "failed to canonicalize start path")?;
    let ghost w0 = backend.world();
    let ghost first = current@;
    loop
        invariant
            main_root_above(backend.world(), current@) == main_root_above(w0, first),
            find_main_run(old(backend).world(), start@) == main_root_above(w0, first),
        decreases current@.len(),
    {
        let dot_git = join_path(current.as_str(), ".git");
        if backend.path_exists(dot_git.as_str()) {
            if backend.is_file(dot_git.as_str()) {
                let message = cat3(
                    "found .git file at ",
                    current.as_str(),
                    " — this is a linked worktree, not the main checkout. Run subcontext install from the main checkout.",
                );
                return Err(fail(message.as_str()));
            }
            if backend.is_dir(dot_git.as_str()) {
                return Ok(current);
            }
        }
        proof {
            lemma_parent_shorter(current@);
        }
        match parent(current.as_str()) {
            Some(up) => {
                current = up;
            },
            None => {
                return Err(fail("not inside a Git repository (no .git/ directory found)"));
            },
        }
    }
}

/// The current branch of the repository at `repo_root`.
pub open spec fn current_branch_run(w: World, repo_root: Text) -> (World, Outcome<Text>) {
    let (w, branch) = w.git(seq!["symbolic-ref"@, "--short"@, "HEAD"@], repo_root);
    (w, contextual(branch, "failed to determine current branch (detached HEAD?)"@))
}

/// Get the current branch name via `git symbolic-ref --short HEAD`.
pub fn current_branch<B: Backend>(backend: &mut B, repo_root: &str) -> (r: Result<String, Failure>)
    ensures
        (final(backend).world(), outcome(r)) == current_branch_run(
            old(backend).world(),
            repo_root@,
        ),
{
    context(
        backend.current_branch(repo_root),
        "failed to determine current branch (detached HEAD?)",
    )
}

// ─── Branch names ────────────────────────────────────────────────────

/// A text with each slash turned into a dash.
pub open spec fn dashed(name: Text) -> Text {
    name.map_values(|c: char| if c == '/' { '-' } else { c })
}

/// A text without the dots at its front.
pub open spec fn undotted(name: Text) -> Text
    decreases name.len(),
{
    if name.len() > 0 && name[0] == '.' {
        undotted(name.skip(1))
    } else {
        name
    }
}

/// A branch name as a segment of an overlay branch name.
pub open spec fn sanitized(name: Text) -> Text {
    let s = undotted(dashed(name));
    if s.len() == 0 {
        "default"@
    } else {
        s
    }
}

/// Sanitize a branch name for use as a Git branch name segment.
/// Replaces `/` with `-`, strips leading dots.
pub fn sanitize_branch_name(name: &str) -> (r: String)
    ensures
        r@ == sanitized(name@),
{
    let chars = chars_of(name);
    let mut from: usize = 0;
    assert(dashed(name@).skip(0) =~= dashed(name@));
    while from < chars.len() && chars[from] == '.'
        invariant
            from <= chars@.len(),
            chars@ == name@,
            undotted(dashed(name@)) == undotted(dashed(name@).skip(from as int)),
        decreases chars@.len() - from,
    {
        assert(dashed(name@).skip(from as int).skip(1) =~= dashed(name@).skip(from + 1));
        from = from + 1;
    }
    let mut out = String::new();
    let mut i: usize = from;
    while i < chars.len()
        invariant
            from <= i <= chars@.len(),
            chars@ == name@,
            out@ == dashed(name@).subrange(from as int, i as int),
        decreases chars@.len() - i,
    {
        let c: char = if chars[i] == '/' {
            '-'
        } else {
            chars[i]
        };
        out.push(c);
        i = i + 1;
        assert(dashed(name@).subrange(from as int, i as int) =~= dashed(name@).subrange(
            from as int,
            i - 1,
        ).push(c));
    }
    assert(dashed(name@).subrange(from as int, i as int) =~= dashed(name@).skip(from as int));
    if out.as_str().is_empty() {
        "default".to_owned()
    } else {
        out
    }
}

/// The overlay branch of the host branch `name`.
pub open spec fn overlay_branch_of(name: Text) -> Text {
    "overlay/"@ + sanitized(name)
}

/// The overlay branch that belongs to a host branch.
pub fn overlay_branch_name(name: &str) -> (r: String)
    ensures
        r@ == overlay_branch_of(name@),
{
    cat("overlay/", sanitize_branch_name(name).as_str())
}

proof fn lemma_undotted(name: Text)
    ensures
        undotted(name).len() > 0 ==> undotted(name)[0] != '.',
        undotted(undotted(name)) == undotted(name),
        undotted(name).len() <= name.len(),
        forall|i: int|
            0 <= i < undotted(name).len() ==> #[trigger] undotted(name)[i] == name[name.len()
                - undotted(name).len() + i],
    decreases name.len(),
{
    if name.len() > 0 && name[0] == '.' {
        lemma_undotted(name.skip(1));
    }
}

/// A sanitized branch name is not empty, holds no slash and does not begin with
/// a dot; sanitizing it again changes nothing.
pub proof fn sanitized_is_a_segment(name: Text)
    ensures
        sanitized(name).len() > 0,
        sanitized(name)[0] != '.',
        !sanitized(name).contains('/'),
        sanitized(sanitized(name)) == sanitized(name),
{
    reveal_strlit("default");
    let d = dashed(name);
    lemma_undotted(d);
    let s = sanitized(name);
    assert(!s.contains('/')) by {
        if undotted(d).len() > 0 {
            assert forall|i: int| 0 <= i < s.len() implies s[i] != '/' by {
                assert(s[i] == d[d.len() - s.len() + i]);
            }
        }
    }
    assert(s[0] != '.');
    assert(dashed(s) =~= s) by {
        assert forall|i: int| 0 <= i < s.len() implies dashed(s)[i] == s[i] by {
            assert(s.contains(s[i]));
        }
    }
}

/// Is the branch name one segment already?
pub open spec fn is_segment(name: Text) -> bool {
    name.len() > 0 && name[0] != '.' && !name.contains('/')
}

/// A branch name that is one segment is kept, so that two such branches have
/// different overlays.
pub proof fn segments_have_their_own_overlay(a: Text, b: Text)
    requires
        is_segment(a),
        is_segment(b),
    ensures
        overlay_branch_of(a) == "overlay/"@ + a,
        overlay_branch_of(a) == overlay_branch_of(b) ==> a == b,
{
    lemma_segment_is_kept(a);
    lemma_segment_is_kept(b);
    let x = overlay_branch_of(a);
    let y = overlay_branch_of(b);
    let n = "overlay/"@.len() as int;
    assert(x.skip(n) =~= a);
    assert(y.skip(n) =~= b);
}

proof fn lemma_segment_is_kept(name: Text)
    requires
        is_segment(name),
    ensures
        sanitized(name) == name,
{
    assert forall|i: int| 0 <= i < name.len() implies dashed(name)[i] == name[i] by {
        assert(name.contains(name[i]));
    }
    assert(dashed(name) =~= name);
}

} // verus!
