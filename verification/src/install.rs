//! Installing a subcontext into a repository.

use vstd::prelude::*;

use crate::agent::{Agent, AgentView};
use crate::backend::{argv3, argv4, write_text, Backend, StoreRequest, TaskScope};
use crate::environment::{Env, EnvView};
use crate::failure::{fail, failed, outcome, Failure, Outcome};
use crate::git::{
    config_dir, config_path, current_branch, current_branch_run, overlay_branch_name,
    overlay_branch_of, repo_dir, repo_path, run_git, run_subcontext_git, subcontext_dir,
    subcontext_path, work_dir, work_path, Checkout, CheckoutContext,
};
use crate::global::{
    commit_all, commit_all_run, current_user_run, exists_run, get_current_user, global_exists,
    global_scope_run, global_task_scope, has_object, has_object_run, register_child, register_run,
    set_parent, set_parent_run, user_scope_run, user_task_scope,
};
use crate::hook::old_hook_path;
use crate::objects::{build_child_object_json, child_object_text};
use crate::overlay;
use crate::paths::{file_name, file_name_of, join_path, path_join};
use crate::project::{ensure_config_run, ensure_config_with, fresh_uuid, is_uuid, SUBCONTEXT_KIND};
use crate::settings;
use crate::text::{
    cat, cat3, cat5, chars_of, ends_with, found_at, is_one_line, is_plain, lemma_line_first, lines,
    lines_of, same, stands_at, trim, trimmed, Text,
};
use crate::world::{Call, ScopeView, StoreCall, World};

verus! {

// ─── Recognizing our hooks ───────────────────────────────────────────

/// Can the character stand before a command word: does it end a word, a directory
/// or an assignment, or begin a quotation or a substitution?
pub open spec fn is_boundary(c: char) -> bool {
    ends_word(c) || c == '/' || c == '=' || c == '"' || c == '\'' || c == '`'
}

/// Does the word `subcontext` stand at a position of a line as the start of a
/// word: at its front or behind a boundary?
pub open spec fn word_at(line: Text, at: int) -> bool {
    stands_at(line, "subcontext"@, at) && (at == 0 || is_boundary(line[at - 1]))
}

/// Where the reader of a shell line stands.
pub enum Shell {
    /// At the start of a word.
    Fresh,
    /// Inside a word.
    Word,
    /// Behind a backslash.
    Escaped,
    /// Between single quotes.
    Single,
    /// Between double quotes.
    Double,
    /// Between double quotes, behind a backslash.
    DoubleEscaped,
}

/// Does the character end a word of a shell line?
pub open spec fn ends_word(c: char) -> bool {
    c == ' ' || c == '\t' || c == ';' || c == '&' || c == '|' || c == '(' || c == ')' || c == '<'
        || c == '>'
}

/// Where the reader stands behind one more character.
pub open spec fn shell_step(state: Shell, c: char) -> Shell {
    match state {
        Shell::Fresh | Shell::Word => if c == '\'' {
            Shell::Single
        } else if c == '"' {
            Shell::Double
        } else if c == '\\' {
            Shell::Escaped
        } else if ends_word(c) {
            Shell::Fresh
        } else {
            Shell::Word
        },
        Shell::Escaped => Shell::Word,
        Shell::Single => if c == '\'' {
            Shell::Word
        } else {
            Shell::Single
        },
        Shell::Double => if c == '"' {
            Shell::Word
        } else if c == '\\' {
            Shell::DoubleEscaped
        } else {
            Shell::Double
        },
        Shell::DoubleEscaped => Shell::Double,
    }
}

/// What is left of a shell line where its comment is cut off: a comment begins at
/// a `#` that begins a word.
pub open spec fn uncommented(line: Text, state: Shell) -> Text
    decreases line.len(),
{
    if line.len() == 0 || (state is Fresh && line[0] == '#') {
        Seq::empty()
    } else {
        seq![line[0]] + uncommented(line.skip(1), shell_step(state, line[0]))
    }
}

/// Does a line of a shell script, outside of comments, invoke subcontext?
pub open spec fn invokes(line: Text) -> bool {
    exists|at: int| #[trigger] word_at(uncommented(trimmed(line), Shell::Fresh), at)
}

/// Does the character end a word of a shell line?
fn stops_word(c: char) -> (r: bool)
    ensures
        r == ends_word(c),
{
    c == ' ' || c == '\t' || c == ';' || c == '&' || c == '|' || c == '(' || c == ')' || c == '<'
        || c == '>'
}

/// Can the character stand before a command word?
fn begins_word(c: char) -> (r: bool)
    ensures
        r == is_boundary(c),
{
    stops_word(c) || c == '/' || c == '=' || c == '"' || c == '\'' || c == '`'
}

/// Where the reader of a shell line stands behind one more character.
fn next_state(state: Shell, c: char) -> (r: Shell)
    ensures
        r == shell_step(state, c),
{
    match state {
        Shell::Fresh | Shell::Word => {
            if c == '\'' {
                Shell::Single
            } else if c == '"' {
                Shell::Double
            } else if c == '\\' {
                Shell::Escaped
            } else if stops_word(c) {
                Shell::Fresh
            } else {
                Shell::Word
            }
        },
        Shell::Escaped => Shell::Word,
        Shell::Single => {
            if c == '\'' {
                Shell::Word
            } else {
                Shell::Single
            }
        },
        Shell::Double => {
            if c == '"' {
                Shell::Word
            } else if c == '\\' {
                Shell::DoubleEscaped
            } else {
                Shell::Double
            }
        },
        Shell::DoubleEscaped => Shell::Double,
    }
}

/// The characters of a shell line before its comment.
fn code_of(line: &str) -> (r: Vec<char>)
    ensures
        r@ == uncommented(line@, Shell::Fresh),
{
    let chars = chars_of(line);
    let mut out: Vec<char> = Vec::new();
    let mut state = Shell::Fresh;
    let mut i: usize = 0;
    assert(line@.skip(0) =~= line@);
    assert(out@ + uncommented(line@, state) =~= uncommented(line@, state));
    while i < chars.len()
        invariant
            i <= chars@.len(),
            chars@ == line@,
            uncommented(line@, Shell::Fresh) == out@ + uncommented(line@.skip(i as int), state),
        decreases chars@.len() - i,
    {
        let c: char = chars[i];
        let ghost rest = line@.skip(i as int);
        let ghost before = out@;
        if let Shell::Fresh = state {
            if c == '#' {
                assert(out@ + Seq::<char>::empty() =~= out@);
                return out;
            }
        }
        let ghost now = shell_step(state, c);
        assert(rest.skip(1) =~= line@.skip(i + 1));
        assert(before + (seq![c] + uncommented(rest.skip(1), now)) =~= before.push(c)
            + uncommented(rest.skip(1), now));
        state = next_state(state, c);
        out.push(c);
        i = i + 1;
    }
    assert(out@ + Seq::<char>::empty() =~= out@);
    out
}

/// Check whether a shell script line (outside of comments) invokes subcontext.
pub fn line_invokes_subcontext(line: &str) -> (r: bool)
    ensures
        r == invokes(line@),
{
    let text = trim(line);
    let chars = code_of(text.as_str());
    let ghost code = chars@;
    let word = chars_of("subcontext");
    proof {
        reveal_strlit("subcontext");
    }
    let mut at: usize = 0;
    while at < chars.len()
        invariant
            at <= chars@.len(),
            chars@ == code,
            word@ == "subcontext"@,
            word@.len() == 10,
            code == uncommented(trimmed(line@), Shell::Fresh),
            forall|k: int| 0 <= k < at ==> !#[trigger] word_at(code, k),
        decreases chars@.len() - at,
    {
        if found_at(&chars, &word, at) {
            if at == 0 || begins_word(chars[at - 1]) {
                assert(word_at(code, at as int));
                return true;
            }
        }
        at = at + 1;
    }
    proof {
        assert forall|k: int| !#[trigger] word_at(code, k) by {
            if word_at(code, k) {
                assert(k + 10 <= code.len());
            }
        }
    }
    false
}

/// Does one of the lines invoke subcontext?
pub open spec fn any_invokes(all: Seq<Text>) -> bool {
    exists|i: int| 0 <= i < all.len() && invokes(#[trigger] all[i])
}

/// Where a hook of a repository is.
pub open spec fn hook_path(root: Text, hook_name: Text) -> Text {
    path_join(path_join(path_join(root, ".git"@), "hooks"@), hook_name)
}

/// The hook of a repository.
pub fn hook_file(root: &str, hook_name: &str) -> (r: String)
    ensures
        r@ == hook_path(root@, hook_name@),
{
    let git = join_path(root, ".git");
    let hooks = join_path(git.as_str(), "hooks");
    join_path(hooks.as_str(), hook_name)
}

/// Asking whether a hook dispatches to subcontext.
pub open spec fn dispatches_run(w: World, root: Text, hook_name: Text) -> (World, bool) {
    let (w, content) = w.read(hook_path(root, hook_name));
    match content {
        Err(_) => (w, false),
        Ok(content) => (w, any_invokes(lines_of(content))),
    }
}

/// Check whether a hook dispatches to subcontext.
pub fn hook_dispatches_to_subcontext<B: Backend>(backend: &mut B, root: &str, hook_name: &str) -> (r:
    bool)
    ensures
        (final(backend).world(), r) == dispatches_run(old(backend).world(), root@, hook_name@),
{
    let path = hook_file(root, hook_name);
    let content = match backend.read_to_string(path.as_str()) {
        Ok(content) => content,
        Err(_) => {
            return false;
        },
    };
    let all = lines(content.as_str());
    let ghost views = all.deep_view();
    let mut i: usize = 0;
    let mut found = false;
    while i < all.len() && !found
        invariant
            i <= all@.len(),
            views == all.deep_view(),
            !found ==> forall|j: int| 0 <= j < i ==> !invokes(#[trigger] views[j]),
            found ==> any_invokes(views),
        decreases all@.len() - i,
    {
        assert(views[i as int] == all@[i as int]@);
        if line_invokes_subcontext(all[i].as_str()) {
            found = true;
        }
        i = i + 1;
    }
    found
}

// ─── Backing up hooks ────────────────────────────────────────────────

/// Which of our hooks are in place.
pub struct OurHooks {
    pub post_checkout: bool,
    pub post_commit: bool,
}

impl OurHooks {
    /// Is the hook of this name ours?
    pub open spec fn has(self, hook_name: Text) -> bool {
        (hook_name == "post-checkout"@ && self.post_checkout) || (hook_name == "post-commit"@
            && self.post_commit)
    }
}

/// Copying a hook to a directory, which is made first.
pub open spec fn keep_run(w: World, path: Text, dir: Text, hook_name: Text, line: Text) -> (
    World,
    Outcome<()>,
) {
    let (w, made) = w.create_dir_all(dir);
    match made {
        Err(e) => (w, Err(e)),
        Ok(_) => {
            let (w, copied) = w.copy(path, path_join(dir, hook_name));
            match copied {
                Err(e) => (w, Err(e)),
                Ok(_) => (w.note(line + hook_name), Ok(())),
            }
        },
    }
}

/// Backing up what is at `path` in the hooks directory: a hook that may be
/// executed and is no sample. One of ours is kept only where it will be
/// overwritten.
pub open spec fn backup_one_run(w: World, root: Text, path: Text, repair: bool, ours: OurHooks) -> (
    World,
    Outcome<()>,
) {
    let hooks = path_join(config_path(root), "hooks"@);
    let (w, is_file) = w.is_file(path);
    if !is_file {
        (w, Ok(()))
    } else {
        let name = file_name_of(path);
        if name is Some && ".sample"@.is_suffix_of(name->0) {
            (w, Ok(()))
        } else {
            let (w, mode) = w.metadata_mode(path);
            match mode {
                Err(e) => (w, Err(e)),
                Ok(mode) => if mode & 0o111 == 0 {
                    (w, Ok(()))
                } else {
                    match name {
                        None => (w, Err(failed("hook has no name: "@ + path))),
                        Some(hook_name) => if !ours.has(hook_name) {
                            keep_run(
                                w,
                                path,
                                path_join(hooks, "old"@),
                                hook_name,
                                "[subcontext] Backed up hook: "@,
                            )
                        } else if repair {
                            keep_run(
                                w,
                                path,
                                path_join(hooks, "backup"@),
                                hook_name,
                                "[subcontext] Saved existing subcontext hook to hooks/backup/"@,
                            )
                        } else {
                            (w, Ok(()))
                        },
                    }
                },
            }
        }
    }
}

/// Backing up the hooks from the `i`-th path on.
pub open spec fn backup_from_run(
    w: World,
    root: Text,
    paths: Seq<Text>,
    i: nat,
    repair: bool,
    ours: OurHooks,
) -> (World, Outcome<()>)
    decreases paths.len() - i,
{
    if i >= paths.len() {
        (w, Ok(()))
    } else {
        let (w, done) = backup_one_run(w, root, paths[i as int], repair, ours);
        match done {
            Err(e) => (w, Err(e)),
            Ok(_) => backup_from_run(w, root, paths, i + 1, repair, ours),
        }
    }
}

/// Backing up the hooks of a repository.
pub open spec fn backup_run(w: World, root: Text, repair: bool, ours: OurHooks) -> (
    World,
    Outcome<()>,
) {
    let dir = path_join(path_join(root, ".git"@), "hooks"@);
    let (w, there) = w.path_exists(dir);
    if !there {
        (w, Ok(()))
    } else {
        let (w, paths) = w.read_dir(dir);
        match paths {
            Err(e) => (w, Err(e)),
            Ok(paths) => backup_from_run(w, root, paths, 0, repair, ours),
        }
    }
}

/// Copy a hook to a directory.
fn keep<B: Backend>(backend: &mut B, path: &str, dir: &str, hook_name: &str, line: &str) -> (r:
    Result<(), Failure>)
    ensures
        (final(backend).world(), outcome(r)) == keep_run(
            old(backend).world(),
            path@,
            dir@,
            hook_name@,
            line@,
        ),
{
    backend.create_dir_all(dir)?;
    let dest = join_path(dir, hook_name);
    backend.copy(path, dest.as_str())?;
    let line = cat(line, hook_name);
    backend.note(line.as_str());
    Ok(())
}

/// Back up what is at a path in the hooks directory.
fn backup_one<B: Backend>(
    backend: &mut B,
    root: &str,
    path: &str,
    repair: bool,
    ours: &OurHooks,
) -> (r: Result<(), Failure>)
    ensures
        (final(backend).world(), outcome(r)) == backup_one_run(
            old(backend).world(),
            root@,
            path@,
            repair,
            *ours,
        ),
{
    let cfg = config_dir(root);
    let hooks = join_path(cfg.as_str(), "hooks");
    let old_dir = join_path(hooks.as_str(), "old");
    let backup_dir = join_path(hooks.as_str(), "backup");
    if !backend.is_file(path) {
        return Ok(());
    }
    let name = file_name(path);
    if let Some(name) = &name {
        if ends_with(name.as_str(), ".sample") {
            return Ok(());
        }
    }
    let mode: u32 = backend.metadata_mode(path)?;
    if mode & 0o111 == 0 {
        return Ok(());
    }
    let hook_name = match name {
        Some(name) => name,
        None => {
            let message = cat("hook has no name: ", path);
            return Err(fail(message.as_str()));
        },
    };
    let is_ours = (same(hook_name.as_str(), "post-checkout") && ours.post_checkout) || (same(
        hook_name.as_str(),
        "post-commit",
    ) && ours.post_commit);
    if is_ours {
        if repair {
            return keep(
                backend,
                path,
                backup_dir.as_str(),
                hook_name.as_str(),
                "[subcontext] Saved existing subcontext hook to hooks/backup/",
            );
        }
        return Ok(());
    }
    keep(
        backend,
        path,
        old_dir.as_str(),
        hook_name.as_str(),
        "[subcontext] Backed up hook: ",
    )
}

/// Backup existing hooks to config/hooks/old/.
pub fn backup_existing_hooks<B: Backend>(
    backend: &mut B,
    root: &str,
    repair: bool,
    ours: &OurHooks,
) -> (r: Result<(), Failure>)
    ensures
        (final(backend).world(), outcome(r)) == backup_run(
            old(backend).world(),
            root@,
            repair,
            *ours,
        ),
{
    let git = join_path(root, ".git");
    let hooks_dir = join_path(git.as_str(), "hooks");
    if !backend.path_exists(hooks_dir.as_str()) {
        return Ok(());
    }
    let ghost w1 = backend.world();
    let paths = backend.read_dir(hooks_dir.as_str())?;
    let ghost all = paths.deep_view();
    let ghost w0 = backend.world();
    let mut i: usize = 0;
    while i < paths.len()
        invariant
            i <= paths@.len(),
            all == paths.deep_view(),
            hooks_dir@ == path_join(path_join(root@, ".git"@), "hooks"@),
            backup_from_run(backend.world(), root@, all, i as nat, repair, *ours)
                == backup_from_run(w0, root@, all, 0, repair, *ours),
            old(backend).world().path_exists(hooks_dir@) == (w1, true),
            w1.read_dir(hooks_dir@) == (w0, Ok::<Seq<Text>, Seq<Text>>(all)),
        decreases paths@.len() - i,
    {
        assert(all[i as int] == paths@[i as int]@);
        backup_one(backend, root, paths[i].as_str(), repair, ours)?;
        i = i + 1;
    }
    Ok(())
}

// ─── Installing hooks ────────────────────────────────────────────────

/// The script that dispatches a hook to subcontext.
pub open spec fn dispatcher(hook_name: Text) -> Text {
    "#!/bin/sh\n# Installed by subcontext. Dispatches to `git subcontext _hook "@ + hook_name
        + "`.\n# Your original hook (if any) is backed up and called automatically.\nexec git subcontext _hook "@
        + hook_name + " \"$@\"\n"@
}

/// Installing a hook dispatcher.
pub open spec fn install_hook_run(w: World, root: Text, hook_name: Text) -> (World, Outcome<()>) {
    let path = hook_path(root, hook_name);
    let (w, made) = w.create_dir_all(path_join(path_join(root, ".git"@), "hooks"@));
    match made {
        Err(e) => (w, Err(e)),
        Ok(_) => {
            let (w, written) = w.write(path, dispatcher(hook_name));
            match written {
                Err(e) => (w, Err(e)),
                Ok(_) => {
                    let (w, set) = w.set_mode(path, 0o755);
                    match set {
                        Err(e) => (w, Err(e)),
                        Ok(_) => (
                            w.note(
                                "[subcontext] Installed "@ + hook_name + " hook dispatcher."@,
                            ),
                            Ok(()),
                        ),
                    }
                },
            }
        },
    }
}

/// Install a hook dispatcher script.
pub fn install_hook_dispatcher<B: Backend>(backend: &mut B, root: &str, hook_name: &str) -> (r:
    Result<(), Failure>)
    ensures
        (final(backend).world(), outcome(r)) == install_hook_run(
            old(backend).world(),
            root@,
            hook_name@,
        ),
{
    let git = join_path(root, ".git");
    let hooks_dir = join_path(git.as_str(), "hooks");
    backend.create_dir_all(hooks_dir.as_str())?;
    let path = join_path(hooks_dir.as_str(), hook_name);
    let script = cat5(
        "#!/bin/sh\n# Installed by subcontext. Dispatches to `git subcontext _hook ",
        hook_name,
        "`.\n# Your original hook (if any) is backed up and called automatically.\nexec git subcontext _hook ",
        hook_name,
        " \"$@\"\n",
    );
    write_text(backend, path.as_str(), script.as_str())?;
    backend.set_permissions_mode(path.as_str(), 0o755)?;
    let line = cat3("[subcontext] Installed ", hook_name, " hook dispatcher.");
    backend.note(line.as_str());
    Ok(())
}

/// Having a hook in place: one that is ours is left, unless it is to be
/// repaired.
pub open spec fn ensure_hook_run(w: World, root: Text, hook_name: Text, is_ours: bool, repair: bool) -> (
    World,
    Outcome<()>,
) {
    if is_ours && !repair {
        (
            w.note(
                "[subcontext] "@ + hook_name
                    + " hook already dispatches to subcontext — leaving it in place (use --repair to overwrite)"@,
            ),
            Ok(()),
        )
    } else {
        install_hook_run(w, root, hook_name)
    }
}

/// Have a hook in place.
fn ensure_hook<B: Backend>(
    backend: &mut B,
    root: &str,
    hook_name: &str,
    is_ours: bool,
    repair: bool,
) -> (r: Result<(), Failure>)
    ensures
        (final(backend).world(), outcome(r)) == ensure_hook_run(
            old(backend).world(),
            root@,
            hook_name@,
            is_ours,
            repair,
        ),
{
    if is_ours && !repair {
        let line = cat3(
            "[subcontext] ",
            hook_name,
            " hook already dispatches to subcontext — leaving it in place (use --repair to overwrite)",
        );
        backend.note(line.as_str());
        Ok(())
    } else {
        install_hook_dispatcher(backend, root, hook_name)
    }
}

/// Backing up the hooks of a repository and putting ours in place.
pub open spec fn hooks_run(w: World, root: Text, repair: bool) -> (World, Outcome<()>) {
    let (w, post_checkout) = dispatches_run(w, root, "post-checkout"@);
    let (w, post_commit) = dispatches_run(w, root, "post-commit"@);
    let (w, kept) = backup_run(w, root, repair, (OurHooks { post_checkout, post_commit }));
    match kept {
        Err(e) => (w, Err(e)),
        Ok(_) => {
            let (w, first) = ensure_hook_run(w, root, "post-checkout"@, post_checkout, repair);
            match first {
                Err(e) => (w, Err(e)),
                Ok(_) => ensure_hook_run(w, root, "post-commit"@, post_commit, repair),
            }
        },
    }
}

/// Back up the hooks of a repository and put ours in place.
fn install_hooks<B: Backend>(backend: &mut B, root: &str, repair: bool) -> (r: Result<(), Failure>)
    ensures
        (final(backend).world(), outcome(r)) == hooks_run(old(backend).world(), root@, repair),
{
    // Backup existing hooks
    let post_checkout = hook_dispatches_to_subcontext(backend, root, "post-checkout");
    let post_commit = hook_dispatches_to_subcontext(backend, root, "post-commit");
    let ours = OurHooks { post_checkout, post_commit };
    backup_existing_hooks(backend, root, repair, &ours)?;

    // Install hook dispatchers
    ensure_hook(backend, root, "post-checkout", post_checkout, repair)?;
    ensure_hook(backend, root, "post-commit", post_commit, repair)
}

// ─── Registering with parents ────────────────────────────────────────

/// Recording a managed object in a scope and committing its state branch.
pub open spec fn manage_run(w: World, scope: ScopeView, uuid: Text, commit: Text) -> (
    World,
    Outcome<()>,
) {
    let (w, inserted) = w.store(
        StoreCall::InsertObject { scope, uuid, kind: "managed"@, commit },
    );
    match inserted {
        Err(e) => (w, Err(e)),
        Ok(_) => {
            let (w, done) = w.store(
                StoreCall::CommitState { state: scope.state_dir, message: "object add: "@ + uuid },
            );
            match done {
                Err(e) => (w, Err(e)),
                Ok(_) => (w, Ok(())),
            }
        },
    }
}

/// Record a managed object in a scope and commit its state branch.
fn manage<B: Backend>(backend: &mut B, scope: &TaskScope, uuid: &str, commit: &str) -> (r: Result<
    (),
    Failure,
>)
    ensures
        (final(backend).world(), outcome(r)) == manage_run(
            old(backend).world(),
            scope@,
            uuid@,
            commit@,
        ),
{
    backend.store(&StoreRequest::InsertObject { scope, uuid, kind: "managed", commit })?;
    let message = cat("object add: ", uuid);
    backend.store(
        &StoreRequest::CommitState {
            state: scope.state_dir.as_str(),
            message: message.as_str(),
        },
    )?;
    Ok(())
}

/// Registering a project with the global subcontext, if there is one.
pub open spec fn join_global_run(w: World, env: EnvView, uuid: Text) -> (World, Outcome<()>) {
    let (w, commit) = register_run(w, env, uuid, SUBCONTEXT_KIND@);
    match commit {
        Err(e) => (w, Err(e)),
        Ok(None) => (w, Ok(())),
        Ok(Some(commit)) => {
            let (w, scope) = global_scope_run(w, env);
            match scope {
                Err(_) => (w, Ok(())),
                Ok(scope) => manage_run(w, scope, uuid, commit),
            }
        },
    }
}

/// Register a project with the global subcontext, if there is one.
fn join_global<B: Backend>(backend: &mut B, env: &Env, uuid: &str) -> (r: Result<(), Failure>)
    ensures
        (final(backend).world(), outcome(r)) == join_global_run(
            old(backend).world(),
            env@,
            uuid@,
        ),
{
    if let Some(commit) = register_child(backend, env, uuid, SUBCONTEXT_KIND)? {
        // Record the managed child in the global objects table.
        if let Ok(scope) = global_task_scope(backend, env) {
            manage(backend, &scope, uuid, commit.as_str())?;
        }
    }
    Ok(())
}

/// Registering a project with the user subcontext of a scope, unless it is known
/// there.
pub open spec fn join_scope_run(w: World, scope: ScopeView, uuid: Text) -> (World, Outcome<()>) {
    let (w, known) = has_object_run(w, scope.repo_dir, uuid);
    if known {
        (w, Ok(()))
    } else {
        let (w, commit) = w.store(
            StoreCall::CreateObjectBranch {
                scope,
                uuid,
                object_json: child_object_text(uuid, SUBCONTEXT_KIND@),
            },
        );
        match commit {
            Err(e) => (w, Err(e)),
            Ok(commit) => manage_run(w, scope, uuid, commit),
        }
    }
}

/// Register a project with the user subcontext of a scope.
fn join_scope<B: Backend>(backend: &mut B, scope: &TaskScope, uuid: &str) -> (r: Result<(), Failure>)
    ensures
        (final(backend).world(), outcome(r)) == join_scope_run(
            old(backend).world(),
            scope@,
            uuid@,
        ),
{
    if has_object(backend, scope.repo_dir.as_str(), uuid) {
        return Ok(());
    }
    // Create child object branch in user's repo.

    let object_json = build_child_object_json(uuid, SUBCONTEXT_KIND);
    let commit = backend.store(
        &StoreRequest::CreateObjectBranch { scope, uuid, object_json: object_json.as_str() },
    )?;
    manage(backend, scope, uuid, commit.as_str())
}

/// Registering a project as a child of the current user, if there is one.
pub open spec fn join_user_run(w: World, env: EnvView, uuid: Text) -> (World, Outcome<()>) {
    let (w, there) = exists_run(w, env);
    match there {
        Err(e) => (w, Err(e)),
        Ok(false) => (w, Ok(())),
        Ok(true) => {
            let (w, user) = current_user_run(w, env);
            match user {
                Ok(Some(user)) => {
                    let (w, scope) = user_scope_run(w, env);
                    match scope {
                        Err(_) => (set_parent_run(w, env, uuid, user).0, Ok(())),
                        Ok(scope) => {
                            let (w, joined) = join_scope_run(w, scope, uuid);
                            match joined {
                                Err(e) => (w, Err(e)),
                                Ok(_) => (set_parent_run(w, env, uuid, user).0, Ok(())),
                            }
                        },
                    }
                },
                _ => (w, Ok(())),
            }
        },
    }
}

/// Register a project as a child of the current user, if there is one.
fn join_user<B: Backend>(backend: &mut B, env: &Env, uuid: &str) -> (r: Result<(), Failure>)
    ensures
        (final(backend).world(), outcome(r)) == join_user_run(old(backend).world(), env@, uuid@),
{
    if !global_exists(backend, env)? {
        return Ok(());
    }
    if let Ok(Some(user_uuid)) = get_current_user(backend, env) {
        // Register as child of the user context.
        if let Ok(scope) = user_task_scope(backend, env) {
            join_scope(backend, &scope, uuid)?;
        }
        // Record parent relationship in system DB.

        let _ = set_parent(backend, env, uuid, user_uuid.as_str());
    }
    Ok(())
}

// ─── Installing ──────────────────────────────────────────────────────

/// Committing the config branch, where it is checked out.
pub open spec fn commit_config_run(w: World, root: Text) -> (World, Outcome<()>) {
    let (w, there) = w.path_exists(config_path(root));
    if !there {
        (w, Ok(()))
    } else {
        commit_all_run(w, config_path(root), "subcontext: update config"@)
    }
}

/// Commit everything on the config branch.
pub fn commit_config_branch<B: Backend>(backend: &mut B, root: &str) -> (r: Result<(), Failure>)
    ensures
        (final(backend).world(), outcome(r)) == commit_config_run(old(backend).world(), root@),
{
    let cfg = config_dir(root);
    if !backend.path_exists(cfg.as_str()) {
        return Ok(());
    }
    commit_all(backend, cfg.as_str(), "subcontext: update config")
}

/// The part of an installation that leads to the project's UUID: hooks,
/// excludes, settings and configuration.
pub open spec fn configure_run(
    w: World,
    agent: AgentView,
    root: Text,
    repair: bool,
    fresh: Text,
) -> (
    World,
    Outcome<Text>,
) {
    let (w, hooks) = hooks_run(w, root, repair);
    match hooks {
        Err(e) => (w, Err(e)),
        Ok(_) => {
            let (w, excludes) = overlay::sync_run(w, Checkout::main_at(root));
            match excludes {
                Err(e) => (w, Err(e)),
                Ok(_) => {
                    let (w, merged) = settings::merge_run(w, agent, root);
                    match merged {
                        Err(e) => (w, Err(e)),
                        Ok(_) => ensure_config_run(
                            w,
                            config_path(root),
                            SUBCONTEXT_KIND@,
                            fresh,
                        ),
                    }
                },
            }
        },
    }
}

/// The shared steps of an installation; a new project gets the UUID `fresh`.
pub open spec fn from_hooks_run(w: World, env: EnvView, root: Text, repair: bool, fresh: Text) -> (
    World,
    Outcome<()>,
) {
    let (w, uuid) = configure_run(w, env.agent, root, repair, fresh);
    match uuid {
        Err(e) => (w, Err(e)),
        Ok(uuid) => {
            let (w, committed) = commit_config_run(w, root);
            match committed {
                Err(e) => (w, Err(e)),
                Ok(_) => {
                    let (w, joined) = join_global_run(w, env, uuid);
                    match joined {
                        Err(e) => (w, Err(e)),
                        Ok(_) => join_user_run(w, env, uuid),
                    }
                },
            }
        },
    }
}

/// The part of an installation that leads to the project's UUID.
fn configure<B: Backend>(
    backend: &mut B,
    agent: &Agent,
    root: &str,
    repair: bool,
    fresh: &str,
) -> (r: Result<String, Failure>)
    ensures
        (final(backend).world(), outcome(r)) == configure_run(
            old(backend).world(),
            agent@,
            root@,
            repair,
            fresh@,
        ),
{
    install_hooks(backend, root, repair)?;

    // Sync excludes
    let ctx = CheckoutContext::main_only(root);
    overlay::sync_excludes(backend, &ctx)?;

    // Merge the settings of the agent harness
    settings::merge_claude_settings(backend, agent, root)?;

    // Ensure project config (UUID, kind, version) is present on config branch
    let dir = config_dir(root);
    ensure_config_with(backend, dir.as_str(), SUBCONTEXT_KIND, fresh)
}

/// The shared steps; a new project gets the UUID `fresh`.
pub fn install_from_hooks_with<B: Backend>(
    backend: &mut B,
    env: &Env,
    root: &str,
    repair: bool,
    fresh: &str,
) -> (r: Result<(), Failure>)
    ensures
        (final(backend).world(), outcome(r)) == from_hooks_run(
            old(backend).world(),
            env@,
            root@,
            repair,
            fresh@,
        ),
{
    let project_uuid = configure(backend, &env.agent, root, repair, fresh)?;

    // Commit config branch
    commit_config_branch(backend, root)?;

    // If a global subcontext exists on this machine, register this project
    // as a child of it (creates an object/<uuid> branch in the global bare
    // repo with object.json containing child data).
    join_global(backend, env, project_uuid.as_str())?;

    // If there's a current user context, register the project as a child of
    // the user and record the parent relationship in the system DB.
    join_user(backend, env, project_uuid.as_str())
}

/// Shared steps: hooks, excludes, settings, config commit. Used by install and clone.
pub fn install_from_hooks<B: Backend>(backend: &mut B, env: &Env, root: &str, repair: bool) -> (r:
    Result<(), Failure>)
    ensures
        exists|fresh: Text|
            is_uuid(fresh) && (final(backend).world(), outcome(r)) == #[trigger] from_hooks_run(
                old(backend).world(),
                env@,
                root@,
                repair,
                fresh,
            ),
{
    let fresh = fresh_uuid();
    install_from_hooks_with(backend, env, root, repair, fresh.as_str())
}

/// Installing the git alias.
pub open spec fn alias_run(w: World, root: Text) -> (World, Outcome<()>) {
    let (w, exe) = w.current_exe();
    match exe {
        Err(e) => (w, Err(e)),
        Ok(exe) => {
            let (w, done) = w.git(seq!["config"@, "alias.subcontext"@, "!"@ + exe], root);
            match done {
                Err(e) => (w, Err(e)),
                Ok(_) => (
                    w.note("[subcontext] Configured git alias: git subcontext → "@ + exe),
                    Ok(()),
                ),
            }
        },
    }
}

/// Install a local git alias so `git subcontext` dispatches to the `subcontext` binary.
pub fn install_git_alias<B: Backend>(backend: &mut B, root: &str) -> (r: Result<(), Failure>)
    ensures
        (final(backend).world(), outcome(r)) == alias_run(old(backend).world(), root@),
{
    // Resolve the absolute path to the currently running binary
    let exe = backend.current_exe()?;
    let alias_value = cat("!", exe.as_str());
    run_git(backend, &argv3("config", "alias.subcontext", alias_value.as_str()), root)?;
    let line = cat("[subcontext] Configured git alias: git subcontext → ", exe.as_str());
    backend.note(line.as_str());
    Ok(())
}

/// Creating the config branch of the context repo and its worktree.
pub open spec fn init_config_run(w: World, root: Text) -> (World, Outcome<()>) {
    let (w, tree) = w.subcontext_git(
        seq!["hash-object"@, "-t"@, "tree"@, "/dev/null"@],
        root,
    );
    match tree {
        Err(e) => (w, Err(e)),
        Ok(tree) => {
            let (w, commit) = w.subcontext_git(
                seq!["commit-tree"@, tree, "-m"@, "init config branch"@],
                root,
            );
            match commit {
                Err(e) => (w, Err(e)),
                Ok(commit) => {
                    let (w, branch) = w.subcontext_git(
                        seq!["update-ref"@, "refs/heads/config"@, commit],
                        root,
                    );
                    match branch {
                        Err(e) => (w, Err(e)),
                        Ok(_) => {
                            let (w, added) = w.subcontext_git(
                                seq!["worktree"@, "add"@, config_path(root), "config"@],
                                root,
                            );
                            match added {
                                Err(e) => (w, Err(e)),
                                Ok(_) => (w, Ok(())),
                            }
                        },
                    }
                },
            }
        },
    }
}

/// Initializing the context repo.
pub open spec fn init_repo_run(w: World, root: Text, host_branch: Text) -> (World, Outcome<()>) {
    let branch = overlay_branch_of(host_branch);
    let (w, made) = w.create_dir_all(subcontext_path(root));
    match made {
        Err(e) => (w, Err(e)),
        Ok(_) => {
            let (w, repo) = w.git(seq!["init"@, "--bare"@, repo_path(root)], root);
            match repo {
                Err(e) => (w, Err(e)),
                Ok(_) => {
                    let (w, config) = init_config_run(w, root);
                    match config {
                        Err(e) => (w, Err(e)),
                        Ok(_) => {
                            let (w, created) = overlay::create_branch_run(w, root, branch);
                            match created {
                                Err(e) => (w, Err(e)),
                                Ok(_) => {
                                    let (w, added) = w.subcontext_git(
                                        seq!["worktree"@, "add"@, work_path(root), branch],
                                        root,
                                    );
                                    match added {
                                        Err(e) => (w, Err(e)),
                                        Ok(_) => {
                                            let (w, state) = w.store(
                                                StoreCall::InitLocalState { root },
                                            );
                                            match state {
                                                Err(e) => (w, Err(e)),
                                                Ok(_) => (w, Ok(())),
                                            }
                                        },
                                    }
                                },
                            }
                        },
                    }
                },
            }
        },
    }
}

/// Create the config branch of the context repo and its worktree.
fn init_config<B: Backend>(backend: &mut B, root: &str) -> (r: Result<(), Failure>)
    ensures
        (final(backend).world(), outcome(r)) == init_config_run(old(backend).world(), root@),
{
    // 2. Create config branch via plumbing
    let empty_tree = run_subcontext_git(
        backend,
        &argv4("hash-object", "-t", "tree", "/dev/null"),
        root,
    )?;
    let config_commit = run_subcontext_git(
        backend,
        &argv4("commit-tree", empty_tree.as_str(), "-m", "init config branch"),
        root,
    )?;
    run_subcontext_git(
        backend,
        &argv3("update-ref", "refs/heads/config", config_commit.as_str()),
        root,
    )?;

    // 3. Add config worktree
    let cfg = config_dir(root);
    run_subcontext_git(backend, &argv4("worktree", "add", cfg.as_str(), "config"), root)?;
    Ok(())
}

/// Initialize the subcontext bare repo, config branch/worktree, and first overlay branch.
pub fn init_context_repo<B: Backend>(backend: &mut B, root: &str, host_branch: &str) -> (r: Result<
    (),
    Failure,
>)
    ensures
        (final(backend).world(), outcome(r)) == init_repo_run(
            old(backend).world(),
            root@,
            host_branch@,
        ),
{
    let sc_dir = subcontext_dir(root);
    let repo = repo_dir(root);
    backend.create_dir_all(sc_dir.as_str())?;

    // 1. Init bare repo
    backend.init_bare(root, repo.as_str())?;

    // 2 and 3. Create config branch and add its worktree
    init_config(backend, root)?;

    // 4. Create overlay/<current-branch> via plumbing (empty)
    let overlay_branch = overlay_branch_name(host_branch);
    overlay::create_overlay_branch(backend, root, overlay_branch.as_str())?;

    // 5. Add work/ worktree pointing to overlay branch
    let work = work_dir(root);
    run_subcontext_git(
        backend,
        &argv4("worktree", "add", work.as_str(), overlay_branch.as_str()),
        root,
    )?;

    // 6. Initialize state branch (tasks.db)
    backend.store(&StoreRequest::InitLocalState { root })?;
    Ok(())
}

/// Telling that the installation is complete.
pub open spec fn summary_run(w: World, branch: Text) -> World {
    w.note(""@).note("[subcontext] Installation complete!"@).note(
        "  Context repo:  .git/.subcontext/repo/"@,
    ).note("  Config mount:  .git/.subcontext/config/"@).note(
        "  Work mount:    .git/.subcontext/work/"@,
    ).note("  Overlay branch: "@ + overlay_branch_of(branch)).note(
        "  Hooks:         .git/hooks/post-checkout, .git/hooks/post-commit"@,
    ).note(""@).note("  Use `git subcontext add <file>` to add files to the overlay."@)
}

/// Tell that the installation is complete.
pub fn print_summary<B: Backend>(backend: &mut B, branch: &str)
    ensures
        final(backend).world() == summary_run(old(backend).world(), branch@),
{
    let overlay_branch = overlay_branch_name(branch);
    let line = cat("  Overlay branch: ", overlay_branch.as_str());
    backend.note("");
    backend.note("[subcontext] Installation complete!");
    backend.note("  Context repo:  .git/.subcontext/repo/");
    backend.note("  Config mount:  .git/.subcontext/config/");
    backend.note("  Work mount:    .git/.subcontext/work/");
    backend.note(line.as_str());
    backend.note("  Hooks:         .git/hooks/post-checkout, .git/hooks/post-commit");
    backend.note("");
    backend.note("  Use `git subcontext add <file>` to add files to the overlay.");
}

/// Having a context repo: one that is there stays.
pub open spec fn ensure_repo_run(w: World, root: Text, branch: Text) -> (World, Outcome<()>) {
    let (w, there) = w.path_exists(subcontext_path(root));
    if there {
        (
            w.note(
                "[subcontext] .git/.subcontext/ exists — re-installing hooks and settings..."@,
            ),
            Ok(()),
        )
    } else {
        init_repo_run(w.note("[subcontext] Initializing context repo..."@), root, branch)
    }
}

/// Installing a subcontext; a new project gets the UUID `fresh`.
pub open spec fn install_run(w: World, env: EnvView, root: Text, repair: bool, fresh: Text) -> (
    World,
    Outcome<()>,
) {
    let (w, branch) = current_branch_run(w, root);
    match branch {
        Err(e) => (w, Err(e)),
        Ok(branch) => {
            let (w, ready) = ensure_repo_run(w, root, branch);
            match ready {
                Err(e) => (w, Err(e)),
                Ok(_) => {
                    let (w, alias) = alias_run(w, root);
                    match alias {
                        Err(e) => (w, Err(e)),
                        Ok(_) => {
                            let (w, done) = from_hooks_run(w, env, root, repair, fresh);
                            match done {
                                Err(e) => (w, Err(e)),
                                Ok(_) => (summary_run(w, branch), Ok(())),
                            }
                        },
                    }
                },
            }
        },
    }
}

/// Install a subcontext; a new project gets the UUID `fresh`.
pub fn install_with<B: Backend>(
    backend: &mut B,
    env: &Env,
    root: &str,
    repair: bool,
    fresh: &str,
) -> (r: Result<(), Failure>)
    ensures
        (final(backend).world(), outcome(r)) == install_run(
            old(backend).world(),
            env@,
            root@,
            repair,
            fresh@,
        ),
{
    let sc_dir = subcontext_dir(root);
    let branch = current_branch(backend, root)?;
    if backend.path_exists(sc_dir.as_str()) {
        backend.note(
            "[subcontext] .git/.subcontext/ exists — re-installing hooks and settings...",
        );
    } else {
        backend.note("[subcontext] Initializing context repo...");
        init_context_repo(backend, root, branch.as_str())?;
    }
    install_git_alias(backend, root)?;
    install_from_hooks_with(backend, env, root, repair, fresh)?;
    print_summary(backend, branch.as_str());
    Ok(())
}

/// Run `subcontext install` from the given repo root.
pub fn install<B: Backend>(backend: &mut B, env: &Env, root: &str, repair: bool) -> (r: Result<
    (),
    Failure,
>)
    ensures
        exists|fresh: Text|
            is_uuid(fresh) && (final(backend).world(), outcome(r)) == #[trigger] install_run(
                old(backend).world(),
                env@,
                root@,
                repair,
                fresh,
            ),
{
    let fresh = fresh_uuid();
    install_with(backend, env, root, repair, fresh.as_str())
}

// ─── Laws ────────────────────────────────────────────────────────────

/// The line of a dispatcher that runs subcontext.
pub open spec fn dispatch_line(hook_name: Text) -> Text {
    "exec git subcontext _hook "@ + hook_name + " \"$@\""@
}

/// Is the character no quote, no backslash and no `#`?
pub open spec fn is_ordinary(c: char) -> bool {
    c != '\'' && c != '"' && c != '\\' && c != '#'
}

/// Ordinary characters at the front of a line are no comment.
proof fn lemma_ordinary_front(line: Text, state: Shell, n: int)
    requires
        state is Fresh || state is Word,
        0 <= n <= line.len(),
        forall|i: int| 0 <= i < n ==> is_ordinary(#[trigger] line[i]),
    ensures
        uncommented(line, state).len() >= n,
        uncommented(line, state).take(n) == line.take(n),
    decreases n,
{
    if n > 0 {
        assert(is_ordinary(line[0]));
        let rest = line.skip(1);
        let next = shell_step(state, line[0]);
        assert forall|i: int| 0 <= i < n - 1 implies is_ordinary(#[trigger] rest[i]) by {
            assert(rest[i] == line[i + 1]);
        }
        lemma_ordinary_front(rest, next, n - 1);
        let code = uncommented(line, state);
        assert forall|i: int| 0 <= i < n implies code[i] == line[i] by {
            if i > 0 {
                assert(code[i] == uncommented(rest, next).take(n - 1)[i - 1]);
                assert(rest.take(n - 1)[i - 1] == line[i]);
            }
        }
        assert(code.take(n) =~= line.take(n));
    } else {
        assert(uncommented(line, state).take(0) =~= line.take(0));
    }
}

/// A comment is cut off: what stands before it is left, where that is without
/// quotes and backslashes and ends a word.
pub proof fn comments_are_cut_off(code: Text, comment: Text, state: Shell)
    requires
        state is Fresh || (state is Word && code.len() > 0),
        forall|i: int| 0 <= i < code.len() ==> is_ordinary(#[trigger] code[i]),
        code.len() > 0 ==> ends_word(code.last()),
    ensures
        uncommented(code + seq!['#'] + comment, state) == code,
    decreases code.len(),
{
    let line = code + seq!['#'] + comment;
    if code.len() > 0 {
        let rest = code.skip(1);
        let next = shell_step(state, code[0]);
        assert(is_ordinary(code[0]));
        assert forall|i: int| 0 <= i < rest.len() implies is_ordinary(#[trigger] rest[i]) by {
            assert(rest[i] == code[i + 1]);
        }
        if rest.len() == 0 {
            assert(code.last() == code[0]);
        }
        comments_are_cut_off(rest, comment, next);
        assert(line.skip(1) =~= rest + seq!['#'] + comment);
        assert(line[0] == code[0]);
        assert(seq![code[0]] + rest =~= code);
    } else {
        assert(line[0] == '#');
    }
}

proof fn lemma_dispatch_line(hook_name: Text)
    ensures
        invokes(dispatch_line(hook_name)),
{
    let line = dispatch_line(hook_name);
    reveal_strlit("exec git subcontext _hook ");
    reveal_strlit(" \"$@\"");
    reveal_strlit("subcontext");
    assert(line[0] == 'e');
    assert(line.last() == '"');
    assert(!crate::text::is_space(line[0]));
    assert(!crate::text::is_space(line.last()));
    assert(trimmed(line) == line);
    assert forall|i: int| 0 <= i < 19 implies is_ordinary(#[trigger] line[i]) by {
        assert(line[i] == "exec git subcontext _hook "@[i]);
    }
    lemma_ordinary_front(line, Shell::Fresh, 19);
    let code = uncommented(line, Shell::Fresh);
    assert(code.subrange(9, 19) =~= "subcontext"@) by {
        assert forall|i: int| 9 <= i < 19 implies code[i] == line[i] by {
            assert(code.take(19)[i] == line.take(19)[i]);
        }
    }
    assert(code[8] == ' ') by {
        assert(code.take(19)[8] == line.take(19)[8]);
    }
    assert(word_at(code, 9));
}

proof fn lemma_plain_around(head: Text, name: Text, tail: Text)
    requires
        is_one_line(head),
        is_one_line(name),
        is_plain(tail),
        tail.len() > 0,
    ensures
        is_plain(head + name + tail),
{
}

proof fn lemma_dispatcher_lines(hook_name: Text)
    requires
        is_one_line(hook_name),
    ensures
        lines_of(dispatcher(hook_name)).contains(dispatch_line(hook_name)),
{
    let first = "#!/bin/sh"@;
    let second = "# Installed by subcontext. Dispatches to `git subcontext _hook "@ + hook_name
        + "`."@;
    let third = "# Your original hook (if any) is backed up and called automatically."@;
    let fourth = dispatch_line(hook_name);
    assert(is_plain(first)) by {
        reveal_strlit("#!/bin/sh");
    }
    assert(is_plain(second)) by {
        reveal_strlit("# Installed by subcontext. Dispatches to `git subcontext _hook ");
        reveal_strlit("`.");
        lemma_plain_around(
            "# Installed by subcontext. Dispatches to `git subcontext _hook "@,
            hook_name,
            "`."@,
        );
    }
    assert(is_plain(third)) by {
        reveal_strlit("# Your original hook (if any) is backed up and called automatically.");
    }
    assert(is_plain(fourth)) by {
        reveal_strlit("exec git subcontext _hook ");
        reveal_strlit(" \"$@\"");
        lemma_plain_around("exec git subcontext _hook "@, hook_name, " \"$@\""@);
    }
    let rest3 = fourth + "\n"@;
    let rest2 = third + "\n"@ + rest3;
    let rest1 = second + "\n"@ + rest2;
    assert("#!/bin/sh\n# Installed by subcontext. Dispatches to `git subcontext _hook "@
        =~= first + "\n"@
        + "# Installed by subcontext. Dispatches to `git subcontext _hook "@) by {
        reveal_strlit(
            "#!/bin/sh\n# Installed by subcontext. Dispatches to `git subcontext _hook ",
        );
        reveal_strlit("#!/bin/sh");
        reveal_strlit("\n");
        reveal_strlit("# Installed by subcontext. Dispatches to `git subcontext _hook ");
    }
    assert("`.\n# Your original hook (if any) is backed up and called automatically.\nexec git subcontext _hook "@
        =~= "`."@ + "\n"@ + third + "\n"@ + "exec git subcontext _hook "@) by {
        reveal_strlit(
            "`.\n# Your original hook (if any) is backed up and called automatically.\nexec git subcontext _hook ",
        );
        reveal_strlit("`.");
        reveal_strlit("\n");
        reveal_strlit("# Your original hook (if any) is backed up and called automatically.");
        reveal_strlit("exec git subcontext _hook ");
    }
    assert(" \"$@\"\n"@ =~= " \"$@\""@ + "\n"@) by {
        reveal_strlit(" \"$@\"\n");
        reveal_strlit(" \"$@\"");
        reveal_strlit("\n");
    }
    assert(dispatcher(hook_name) =~= first + "\n"@ + rest1);
    lemma_line_first(first, rest1);
    lemma_line_first(second, rest2);
    lemma_line_first(third, rest3);
    lemma_line_first(fourth, Seq::empty());
    assert(fourth + "\n"@ + Seq::<char>::empty() =~= rest3);
    let all = lines_of(dispatcher(hook_name));
    assert(all =~= seq![first] + (seq![second] + (seq![third] + (seq![fourth] + lines_of(
        Seq::empty(),
    )))));
    assert(all[3] == fourth);
}

/// A dispatcher is known as ours: a hook that was installed dispatches to
/// subcontext, so that installing again leaves it in place.
pub proof fn dispatcher_dispatches(hook_name: Text)
    requires
        is_one_line(hook_name),
    ensures
        any_invokes(lines_of(dispatcher(hook_name))),
{
    lemma_dispatcher_lines(hook_name);
    lemma_dispatch_line(hook_name);
    let all = lines_of(dispatcher(hook_name));
    let i = all.index_of(dispatch_line(hook_name));
    assert(invokes(all[i]));
}

/// A hook that is ours is not touched, unless it is to be repaired.
pub proof fn our_hook_is_left(w: World, root: Text, hook_name: Text)
    ensures
        ensure_hook_run(w, root, hook_name, true, false).0.calls.len() == w.calls.len() + 1,
        ensure_hook_run(w, root, hook_name, true, false).0.calls.last() is Note,
        ensure_hook_run(w, root, hook_name, true, false).1 is Ok,
{
}

/// The user's own hook is kept where it will be run from, and taken back from:
/// backing it up asks whether it is a file and what its mode is, makes the
/// directory, and copies it to the place of the old hook of its name.
pub proof fn own_hook_is_kept_where_it_is_run(
    w: World,
    root: Text,
    path: Text,
    hook_name: Text,
    repair: bool,
    ours: OurHooks,
)
    requires
        file_name_of(path) == Some(hook_name),
        !".sample"@.is_suffix_of(hook_name),
        !ours.has(hook_name),
        w.is_file(path).1,
        w.is_file(path).0.metadata_mode(path).1 is Ok,
        w.is_file(path).0.metadata_mode(path).1->Ok_0 & 0o111 != 0,
        backup_one_run(w, root, path, repair, ours).1 is Ok,
    ensures
        backup_one_run(w, root, path, repair, ours).0.calls[w.calls.len() as int + 3] == (
        Call::Copy { from: path, to: old_hook_path(root, hook_name) }),
{
}

} // verus!
