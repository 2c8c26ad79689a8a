//! The status report of a repository.

use vstd::prelude::*;

use crate::backend::{argv2, Backend};
use crate::environment::{Env, EnvView};
use crate::failure::{context, contextual, fail, failed, outcome, Failure, Outcome};
use crate::git::{
    config_path, current_branch, current_branch_run, find_checkout_context, find_checkout_run,
    gitdir_in, gitdir_text, grandparent, great_parent, overlay_branch_name, overlay_branch_of,
    run_work_git,
};
use crate::global::{
    base_of, config_in, exists_run, global_exists, repo_in, root_of, system_kind, system_run,
    system_uuid,
};
use crate::lineage::{ancestry_chain, ancestry_is_one, ancestry_within};
use crate::paths::{
    is_absolute, is_rooted, join_path, lemma_parent_shorter, parent, parent_of, parts, path_join,
    same_path,
};
use crate::project::{read_kind, read_kind_run, read_project_uuid, read_uuid_run};
use crate::text::{cat3, cat4, cat5, lines, lines_of, occurs, stands_at, Text};
use crate::world::World;

verus! {

// ─── Roots ───────────────────────────────────────────────────────────

/// The main root of a linked worktree with this git directory.
pub open spec fn main_root_of(gitdir: Text) -> Option<Text> {
    match great_parent(gitdir) {
        None => None,
        Some(up) => parent_of(up),
    }
}

/// The root and the main root where `current` holds a `.git` file.
pub open spec fn worktree_roots_run(w: World, current: Text) -> (World, Outcome<(Text, Text)>) {
    let (w, contents) = w.read(path_join(current, ".git"@));
    match contextual(contents, "failed to read .git file"@) {
        Err(e) => (w, Err(e)),
        Ok(contents) => {
            let gitdir = gitdir_in(contents);
            let path = if is_rooted(gitdir) {
                gitdir
            } else {
                path_join(current, gitdir)
            };
            let (w, resolved) = w.canonicalize(path);
            match contextual(resolved, "failed to resolve worktree gitdir"@) {
                Err(e) => (w, Err(e)),
                Ok(resolved) => match main_root_of(resolved) {
                    None => (
                        w,
                        Err(failed("failed to derive main repo root from worktree gitdir"@)),
                    ),
                    Some(main_root) => (w, Ok((current, main_root))),
                },
            }
        },
    }
}

/// The nearest root at or above `current`, and its main root.
pub open spec fn roots_above(w: World, current: Text) -> (World, Outcome<(Text, Text)>)
    decreases current.len(),
{
    proof {
        lemma_parent_shorter(current);
    }
    let dot_git = path_join(current, ".git"@);
    let (w, is_dir) = w.is_dir(dot_git);
    if is_dir {
        (w, Ok((current, current)))
    } else {
        let (w, is_file) = w.is_file(dot_git);
        if is_file {
            worktree_roots_run(w, current)
        } else {
            match parent_of(current) {
                None => (w, Err(failed("not inside a Git repository"@))),
                Some(up) => roots_above(w, up),
            }
        }
    }
}

/// Finding the nearest root and its main root.
pub open spec fn roots_run(w: World, start: Text) -> (World, Outcome<(Text, Text)>) {
    let (w, current) = w.canonicalize(start);
    match contextual(current, "failed to canonicalize start path"@) {
        Err(e) => (w, Err(e)),
        Ok(current) => roots_above(w, current),
    }
}

/// The root and the main root where `current` holds a `.git` file.
fn worktree_roots<B: Backend>(backend: &mut B, current: &str) -> (r: Result<
    (String, String),
    Failure,
>)
    ensures
        (final(backend).world(), outcome(r)) == worktree_roots_run(
            old(backend).world(),
            current@,
        ),
{
    let dot_git = join_path(current, ".git");
    let contents = context(backend.read_to_string(dot_git.as_str()), "failed to read .git file")?;
    let gitdir = gitdir_text(contents.as_str());
    let gitdir_path = if is_absolute(gitdir.as_str()) {
        gitdir
    } else {
        join_path(current, gitdir.as_str())
    };
    let main_git_dir = context(
        backend.canonicalize(gitdir_path.as_str()),
        "failed to resolve worktree gitdir",
    )?;
    if let Some(up) = grandparent(main_git_dir.as_str()) {
        if let Some(main_root) = parent(up.as_str()) {
            return Ok((current.to_owned(), main_root));
        }
    }
    Err(fail("failed to derive main repo root from worktree gitdir"))
}

/// Find the nearest git root and the main repo root.
pub fn find_git_roots<B: Backend>(backend: &mut B, start: &str) -> (r: Result<
    (String, String),
    Failure,
>)
    ensures
        (final(backend).world(), outcome(r)) == roots_run(old(backend).world(), start@),
{
    let mut current = context(backend.canonicalize(start), "failed to canonicalize start path")?;
    let ghost w1 = backend.world();
    let ghost first = current@;
    loop
        invariant
            roots_above(backend.world(), current@) == roots_above(w1, first),
            old(backend).world().canonicalize(start@) == (w1, Ok::<Text, Seq<Text>>(first)),
        decreases current@.len(),
    {
        let dot_git = join_path(current.as_str(), ".git");
        if backend.is_dir(dot_git.as_str()) {
            return Ok((current.clone(), current));
        }
        if backend.is_file(dot_git.as_str()) {
            return worktree_roots(backend, current.as_str());
        }
        proof {
            lemma_parent_shorter(current@);
        }
        match parent(current.as_str()) {
            Some(up) => {
                current = up;
            },
            None => {
                return Err(fail("not inside a Git repository"));
            },
        }
    }
}

// ─── The report ──────────────────────────────────────────────────────

/// The lines that tell where the checkout is.
pub open spec fn place_lines(current_root: Text, main_root: Text) -> Text {
    if parts(current_root) != parts(main_root) {
        "Worktree:    "@ + current_root + "\nMain repo:   "@ + main_root + "\n"@
    } else {
        "Main repo:   "@ + current_root + "\nWorktree:    no (this is the main checkout)\n"@
    }
}

/// The line that tells the branch.
pub open spec fn branch_line_of(branch: Outcome<Text>) -> Text {
    match branch {
        Ok(branch) => "Branch:      "@ + branch + "\n"@,
        Err(_) => "Branch:      (detached HEAD)\n"@,
    }
}

/// The line that tells whether a subcontext is installed.
pub open spec fn state_line(is_worktree: bool, installed: bool) -> Text {
    if !installed {
        "Subcontext:  not installed\n"@
    } else if is_worktree {
        "Subcontext:  installed (in main repo)\n"@
    } else {
        "Subcontext:  installed\n"@
    }
}

/// The line that tells the overlay branch; empty where HEAD is detached, which
/// has none.
pub open spec fn overlay_line_of(branch: Outcome<Text>) -> Text {
    match branch {
        Ok(branch) => "Overlay:     "@ + overlay_branch_of(branch) + "\n"@,
        Err(_) => Seq::empty(),
    }
}

/// Lines, each with two blanks before it.
pub open spec fn indented(lines: Seq<Text>) -> Text
    decreases lines.len(),
{
    if lines.len() == 0 {
        Seq::empty()
    } else {
        indented(lines.drop_last()) + ("  "@ + lines.last() + "\n"@)
    }
}

/// The lines that tell the pending changes of the overlay, as git lists them.
pub open spec fn changes_text(listed: Text) -> Text {
    if lines_of(listed).len() == 0 {
        "Changes:     none\n"@
    } else {
        "Changes:\n"@ + indented(lines_of(listed))
    }
}

/// Asking for the pending changes of the overlay of a checkout: what its work
/// directory has that is not committed. Nothing is told where git cannot tell.
pub open spec fn changes_run(w: World, root: Text) -> (World, Text) {
    let (w, checkout) = find_checkout_run(w, root);
    match checkout {
        Err(_) => (w, Seq::empty()),
        Ok(c) => {
            let (w, listed) = w.work_git(seq!["status"@, "--porcelain"@], c.overlay_work());
            match listed {
                Err(_) => (w, Seq::empty()),
                Ok(listed) => (w, changes_text(listed)),
            }
        },
    }
}

/// The lines that tell the overlay of a checkout, where a subcontext is installed.
pub open spec fn overlay_lines_run(
    w: World,
    root: Text,
    branch: Outcome<Text>,
    installed: bool,
) -> (World, Text) {
    if !installed {
        (w, Seq::empty())
    } else {
        let (w, changes) = changes_run(w, root);
        (w, overlay_line_of(branch) + changes)
    }
}

/// The directory of the subcontext of a main root.
pub open spec fn sc_path(main_root: Text) -> Text {
    path_join(path_join(main_root, ".git"@), ".subcontext"@)
}

/// The line that tells the UUID and kind of the subcontext; empty where none is
/// installed or its UUID cannot be read.
pub open spec fn uuid_line_run(w: World, main_root: Text) -> (World, Text) {
    let (w, installed) = w.is_dir(sc_path(main_root));
    if !installed {
        (w, Seq::empty())
    } else {
        let (w, uuid) = read_uuid_run(w, config_path(main_root));
        match uuid {
            Err(_) => (w, Seq::empty()),
            Ok(uuid) => {
                let (w, kind) = read_kind_run(w, config_path(main_root));
                let kind = match kind {
                    Ok(kind) => kind,
                    Err(_) => "unknown"@,
                };
                (w, "UUID:        "@ + uuid + " ("@ + kind + ")\n"@)
            },
        }
    }
}

/// The line that tells the UUID and kind of the global subcontext; empty where
/// there is none or its UUID cannot be read.
pub open spec fn global_line_run(w: World, env: EnvView) -> (World, Text) {
    let (w, there) = exists_run(w, env);
    match there {
        Ok(true) => {
            let dir = config_in(base_of(root_of(env)->Ok_0));
            let (w, uuid) = read_uuid_run(w, dir);
            match uuid {
                Err(_) => (w, Seq::empty()),
                Ok(uuid) => {
                    let (w, kind) = read_kind_run(w, dir);
                    let kind = match kind {
                        Ok(kind) => kind,
                        Err(_) => "system"@,
                    };
                    (w, "Global:      "@ + uuid + " ("@ + kind + ")\n"@)
                },
            }
        },
        _ => (w, Seq::empty()),
    }
}

/// Ancestors with arrows between them.
pub open spec fn ancestors_text(chain: Seq<(Text, Text)>) -> Text
    decreases chain.len(),
{
    if chain.len() == 0 {
        Seq::empty()
    } else {
        ancestors_text(chain.drop_last()) + (if chain.len() > 1 {
            " -> "@
        } else {
            Seq::empty()
        }) + (chain.last().0 + " ("@ + chain.last().1 + ")"@)
    }
}

/// The line that tells the ancestors of the subcontext; empty where there are
/// none to tell.
pub open spec fn ancestry_line_within(w: World, env: EnvView, main_root: Text, steps: nat) -> Option<
    (World, Text),
> {
    let (w, installed) = w.is_dir(sc_path(main_root));
    if !installed {
        Some((w, Seq::empty()))
    } else {
        let (w, uuid) = read_uuid_run(w, config_path(main_root));
        match uuid {
            Err(_) => Some((w, Seq::empty())),
            Ok(uuid) => match ancestry_within(w, env, uuid, steps) {
                None => None,
                Some((w, Err(_))) => Some((w, Seq::empty())),
                Some((w, Ok(chain))) => if chain.len() == 0 {
                    Some((w, Seq::empty()))
                } else {
                    Some((w, "Ancestry:    "@ + ancestors_text(chain) + "\n"@))
                },
            },
        }
    }
}

/// The report of a checkout, where the walk up the ancestors ends within `steps`
/// steps.
pub open spec fn report_within(
    w: World,
    env: EnvView,
    current_root: Text,
    main_root: Text,
    steps: nat,
) -> Option<(World, Text)> {
    let (w, branch) = current_branch_run(w, current_root);
    let (w, installed) = w.is_dir(sc_path(main_root));
    let state = state_line(parts(current_root) != parts(main_root), installed);
    let (w, overlay) = overlay_lines_run(w, current_root, branch, installed);
    let (w, own) = uuid_line_run(w, main_root);
    let (w, global) = global_line_run(w, env);
    match ancestry_line_within(w, env, main_root, steps) {
        None => None,
        Some((w, ancestry)) => Some(
            (
                w,
                place_lines(current_root, main_root) + branch_line_of(branch) + state + overlay
                    + own + global + ancestry,
            ),
        ),
    }
}

/// The report for a directory, where the walk up the ancestors ends within
/// `steps` steps.
pub open spec fn status_within(w: World, env: EnvView, cwd: Text, steps: nat) -> Option<
    (World, Outcome<Text>),
> {
    let (w, roots) = roots_run(w, cwd);
    match roots {
        Err(e) => Some((w, Err(e))),
        Ok((current_root, main_root)) => match report_within(
            w,
            env,
            current_root,
            main_root,
            steps,
        ) {
            None => None,
            Some((w, text)) => Some((w, Ok(text))),
        },
    }
}

/// The line that tells the branch.
fn branch_line(branch: &Result<String, Failure>) -> (r: String)
    ensures
        r@ == branch_line_of(outcome(*branch)),
{
    match branch {
        Ok(branch) => cat3("Branch:      ", branch.as_str(), "\n"),
        Err(_) => "Branch:      (detached HEAD)\n".to_owned(),
    }
}

/// The lines that tell the pending changes of the overlay.
fn show_changes(listed: &str) -> (r: String)
    ensures
        r@ == changes_text(listed@),
{
    let all = lines(listed);
    let ghost views = all.deep_view();
    if all.len() == 0 {
        return "Changes:     none\n".to_owned();
    }
    let mut out: String = "Changes:\n".to_owned();
    let ghost head = out@;
    let mut i: usize = 0;
    assert(head + indented(views.take(0)) =~= head);
    while i < all.len()
        invariant
            i <= all@.len(),
            views == all.deep_view(),
            out@ == head + indented(views.take(i as int)),
        decreases all@.len() - i,
    {
        let ghost before = out@;
        let line = cat3("  ", all[i].as_str(), "\n");
        out.append(line.as_str());
        proof {
            assert(views.take(i + 1).drop_last() =~= views.take(i as int));
            assert(views.take(i + 1).last() == all@[i as int]@);
            assert(before + line@ =~= head + indented(views.take(i + 1)));
        }
        i = i + 1;
    }
    assert(views.take(all@.len() as int) =~= views);
    out
}

/// Ask for the pending changes of the overlay of a checkout.
fn pending_changes<B: Backend>(backend: &mut B, root: &str) -> (r: String)
    ensures
        (final(backend).world(), r@) == changes_run(old(backend).world(), root@),
{
    let none = String::new();
    assert(none@ =~= Seq::<char>::empty());
    let ctx = match find_checkout_context(backend, root) {
        Ok(ctx) => ctx,
        Err(_) => {
            return none;
        },
    };
    let work = ctx.overlay_work_dir();
    match run_work_git(backend, &argv2("status", "--porcelain"), work.as_str()) {
        Ok(listed) => show_changes(listed.as_str()),
        Err(_) => none,
    }
}

/// Show the overlay branch and its pending changes if installed.
fn overlay_lines<B: Backend>(
    backend: &mut B,
    root: &str,
    branch: &Result<String, Failure>,
    installed: bool,
) -> (r: String)
    ensures
        (final(backend).world(), r@) == overlay_lines_run(
            old(backend).world(),
            root@,
            outcome(*branch),
            installed,
        ),
{
    let none = String::new();
    assert(none@ =~= Seq::<char>::empty());
    if !installed {
        return none;
    }
    let changes = pending_changes(backend, root);
    match branch {
        Ok(branch) => {
            let overlay_branch = overlay_branch_name(branch.as_str());
            cat4("Overlay:     ", overlay_branch.as_str(), "\n", changes.as_str())
        },
        Err(_) => {
            assert(Seq::<char>::empty() + changes@ =~= changes@);
            changes
        },
    }
}

/// The directory of the subcontext of a main root.
fn sc_dir_of(main_root: &str) -> (r: String)
    ensures
        r@ == sc_path(main_root@),
{
    let git = join_path(main_root, ".git");
    join_path(git.as_str(), ".subcontext")
}

/// Show the current subcontext's UUID and kind if installed.
fn uuid_line<B: Backend>(backend: &mut B, main_root: &str) -> (r: String)
    ensures
        (final(backend).world(), r@) == uuid_line_run(old(backend).world(), main_root@),
{
    let sc_dir = sc_dir_of(main_root);
    let none = String::new();
    assert(none@ =~= Seq::<char>::empty());
    if !backend.is_dir(sc_dir.as_str()) {
        return none;
    }
    match read_project_uuid(backend, main_root) {
        Err(_) => none,
        Ok(uuid) => {
            let kind = match read_kind(backend, main_root) {
                Ok(kind) => kind,
                Err(_) => "unknown".to_owned(),
            };
            cat5("UUID:        ", uuid.as_str(), " (", kind.as_str(), ")\n")
        },
    }
}

/// Show global (system) subcontext info.
fn global_line<B: Backend>(backend: &mut B, env: &Env) -> (r: String)
    ensures
        (final(backend).world(), r@) == global_line_run(old(backend).world(), env@),
{
    let none = String::new();
    assert(none@ =~= Seq::<char>::empty());
    match global_exists(backend, env) {
        Ok(there) => {
            if !there {
                return none;
            }
        },
        Err(_) => {
            return none;
        },
    }
    match system_uuid(backend, env) {
        Err(_) => none,
        Ok(uuid) => {
            let kind = match system_kind(backend, env) {
                Ok(kind) => kind,
                Err(_) => "system".to_owned(),
            };
            cat5("Global:      ", uuid.as_str(), " (", kind.as_str(), ")\n")
        },
    }
}

/// Ancestors with arrows between them.
fn show_ancestors(chain: &Vec<(String, String)>) -> (r: String)
    ensures
        r@ == ancestors_text(chain.deep_view()),
{
    let ghost all = chain.deep_view();
    let mut out = String::new();
    let mut i: usize = 0;
    assert(out@ =~= ancestors_text(all.take(0)));
    while i < chain.len()
        invariant
            i <= chain@.len(),
            all == chain.deep_view(),
            out@ == ancestors_text(all.take(i as int)),
        decreases chain@.len() - i,
    {
        let ghost before = out@;
        let ghost now = all.take(i + 1);
        proof {
            assert(now.drop_last() =~= all.take(i as int));
            assert(now.last() == chain@[i as int].deep_view());
        }
        if i > 0 {
            out.append(" -> ");
        }
        let one = cat4(chain[i].0.as_str(), " (", chain[i].1.as_str(), ")");
        out.append(one.as_str());
        proof {
            if i == 0 {
                assert(before + Seq::<char>::empty() + one@ =~= before + one@);
            }
        }
        i = i + 1;
    }
    assert(all.take(chain@.len() as int) =~= all);
    out
}

/// Show ancestry chain (does not include system subcontext).
fn ancestry_line<B: Backend>(backend: &mut B, env: &Env, main_root: &str) -> (r: String)
    ensures
        exists|steps: nat|
            #[trigger] ancestry_line_within(old(backend).world(), env@, main_root@, steps) == Some(
                (final(backend).world(), r@),
            ),
{
    let ghost w0 = old(backend).world();
    let ghost at_once = ancestry_line_within(w0, env@, main_root@, 0);
    let sc_dir = sc_dir_of(main_root);
    let none = String::new();
    assert(none@ =~= Seq::<char>::empty());
    if !backend.is_dir(sc_dir.as_str()) {
        return none;
    }
    let uuid = match read_project_uuid(backend, main_root) {
        Ok(uuid) => uuid,
        Err(_) => {
            return none;
        },
    };
    let ghost w1 = backend.world();
    let chain = ancestry_chain(backend, env, uuid.as_str());
    let ghost steps = choose|steps: nat|
        #[trigger] ancestry_within(w1, env@, uuid@, steps) == Some(
            (backend.world(), outcome(chain)),
        );
    let ghost now = ancestry_line_within(w0, env@, main_root@, steps);
    match chain {
        Err(_) => none,
        Ok(chain) => {
            if chain.len() == 0 {
                none
            } else {
                let text = show_ancestors(&chain);
                cat3("Ancestry:    ", text.as_str(), "\n")
            }
        },
    }
}

/// Build the status report as a string. Used by both the CLI and the MCP server.
pub fn status_text<B: Backend>(backend: &mut B, env: &Env, cwd: &str) -> (r: Result<
    String,
    Failure,
>)
    ensures
        exists|steps: nat|
            #[trigger] status_within(old(backend).world(), env@, cwd@, steps) == Some(
                (final(backend).world(), outcome(r)),
            ),
{
    let ghost w0 = old(backend).world();
    let ghost at_once = status_within(w0, env@, cwd@, 0);
    let (current_root, main_root) = find_git_roots(backend, cwd)?;
    let is_worktree = !same_path(current_root.as_str(), main_root.as_str());
    let mut out: String = if is_worktree {
        cat5(
            "Worktree:    ",
            current_root.as_str(),
            "\nMain repo:   ",
            main_root.as_str(),
            "\n",
        )
    } else {
        cat3(
            "Main repo:   ",
            current_root.as_str(),
            "\nWorktree:    no (this is the main checkout)\n",
        )
    };
    let branch = current_branch(backend, current_root.as_str());
    let line = branch_line(&branch);
    out.append(line.as_str());
    let sc_dir = sc_dir_of(main_root.as_str());
    let installed = backend.is_dir(sc_dir.as_str());
    let state = match (is_worktree, installed) {
        (true, true) => "Subcontext:  installed (in main repo)\n",
        (true, false) => "Subcontext:  not installed\n",
        (false, true) => "Subcontext:  installed\n",
        (false, false) => "Subcontext:  not installed\n",
    };
    out.append(state);
    let overlay = overlay_lines(backend, current_root.as_str(), &branch, installed);
    out.append(overlay.as_str());
    let own = uuid_line(backend, main_root.as_str());
    out.append(own.as_str());
    let global = global_line(backend, env);
    out.append(global.as_str());
    let ghost w1 = backend.world();
    let ancestry = ancestry_line(backend, env, main_root.as_str());
    let ghost steps = choose|steps: nat|
        #[trigger] ancestry_line_within(w1, env@, main_root@, steps) == Some(
            (backend.world(), ancestry@),
        );
    let ghost now = status_within(w0, env@, cwd@, steps);
    out.append(ancestry.as_str());
    Ok(out)
}

// ─── Laws ────────────────────────────────────────────────────────────

/// The report is one: where the walk up the ancestors ends, the report is the
/// same however many steps it may take.
pub proof fn status_is_one(w: World, env: EnvView, cwd: Text, steps: nat, more: nat)
    requires
        status_within(w, env, cwd, steps) is Some,
        steps <= more,
    ensures
        status_within(w, env, cwd, more) == status_within(w, env, cwd, steps),
{
    let (w1, roots) = roots_run(w, cwd);
    if roots is Ok {
        let (current_root, main_root) = roots->Ok_0;
        let (w2, branch) = current_branch_run(w1, current_root);
        let (w3, present) = w2.is_dir(sc_path(main_root));
        let w4 = overlay_lines_run(w3, current_root, branch, present).0;
        let w5 = global_line_run(uuid_line_run(w4, main_root).0, env).0;
        let (w6, installed) = w5.is_dir(sc_path(main_root));
        let (w7, uuid) = read_uuid_run(w6, config_path(main_root));
        if installed && uuid is Ok {
            let (w8, there) = exists_run(w7, env);
            let (w9, system) = system_run(w8, env);
            if there == Ok::<bool, Seq<Text>>(true) && system is Ok {
                let (scope, conn) = system->Ok_0;
                ancestry_is_one(
                    w9,
                    repo_in(base_of(root_of(env)->Ok_0)),
                    conn,
                    scope.project_uuid,
                    uuid->Ok_0,
                    Seq::empty(),
                    steps,
                    more,
                );
            }
        }
    }
}

/// The report of a checkout with a subcontext names the main repo, the overlay
/// branch of the branch that is checked out, and the pending changes of the
/// overlay.
pub proof fn report_shows_the_overlay(
    w: World,
    env: EnvView,
    current_root: Text,
    main_root: Text,
    steps: nat,
)
    requires
        report_within(w, env, current_root, main_root, steps) is Some,
        current_branch_run(w, current_root).1 is Ok,
        current_branch_run(w, current_root).0.is_dir(sc_path(main_root)).1,
    ensures
        ({
            let text = (report_within(w, env, current_root, main_root, steps)->0).1;
            let (w1, branch) = current_branch_run(w, current_root);
            let w2 = w1.is_dir(sc_path(main_root)).0;
            &&& place_lines(current_root, main_root).is_prefix_of(text)
            &&& occurs(text, "Overlay:     "@ + overlay_branch_of(branch->Ok_0) + "\n"@)
            &&& occurs(text, changes_run(w2, current_root).1)
        }),
{
    let text = (report_within(w, env, current_root, main_root, steps)->0).1;
    let (w1, branch) = current_branch_run(w, current_root);
    let (w2, installed) = w1.is_dir(sc_path(main_root));
    let place = place_lines(current_root, main_root);
    let state = state_line(parts(current_root) != parts(main_root), installed);
    let head = place + branch_line_of(branch) + state;
    let line = overlay_line_of(branch);
    let changes = changes_run(w2, current_root).1;
    let at = head.len() as int;
    assert(text.subrange(0, place.len() as int) =~= place);
    assert(text.subrange(at, at + line.len()) =~= line);
    assert(stands_at(text, line, at));
    let next = at + line.len();
    assert(text.subrange(next, next + changes.len()) =~= changes);
    assert(stands_at(text, changes, next));
}

} // verus!
