//! Shadow tasks: a task of a subcontext is repeated in each of its ancestors.

use vstd::prelude::*;

use crate::backend::{Backend, StoreRequest, TaskFields, TaskScope, TaskSource};
use crate::environment::{Env, EnvView};
use crate::failure::{fail, failed, outcome, Failure, Outcome};
use crate::frontmatter::{frontmatter_of, parse_frontmatter, value_for, FrontmatterMap};
use crate::global::{
    exists_run, get_parent, get_parent_run, global_exists, global_scope_run, global_task_scope,
    record_child_checkout_path, record_run, user_scope_run, user_task_scope,
};
use crate::lineage::cycle_failure;
use crate::paths::{join_path, path_join};
use crate::text::{cat, cat3, cat5, decimal, is_listed, number_text, same, Text};
use crate::world::{ScopeView, SourceView, StoreCall, TaskView, World};

verus! {

// ─── Scopes ──────────────────────────────────────────────────────────

/// Finding where the tasks of a subcontext are kept: of the system subcontext or
/// of the user's.
pub open spec fn scope_for_run(w: World, env: EnvView, uuid: Text) -> (World, Outcome<ScopeView>) {
    let (w, system) = global_scope_run(w, env);
    if system is Ok && system->Ok_0.project_uuid == uuid {
        (w, system)
    } else {
        let (w, user) = user_scope_run(w, env);
        if user is Ok && user->Ok_0.project_uuid == uuid {
            (w, user)
        } else {
            (
                w,
                Err(
                    failed(
                        "cannot resolve TaskScope for UUID "@ + uuid
                            + " — only system and user subcontexts support receiving propagated tasks"@,
                    ),
                ),
            )
        }
    }
}

/// Resolve a TaskScope for a given UUID. Checks if it's the user subcontext
/// or the system subcontext.
pub fn resolve_scope_for_uuid<B: Backend>(backend: &mut B, env: &Env, uuid: &str) -> (r: Result<
    TaskScope,
    Failure,
>)
    ensures
        (final(backend).world(), outcome(r)) == scope_for_run(old(backend).world(), env@, uuid@),
{
    // Check if it's the system (global) subcontext.
    if let Ok(scope) = global_task_scope(backend, env) {
        if same(scope.project_uuid.as_str(), uuid) {
            return Ok(scope);
        }
    }
    // Check if it's the user subcontext.
    if let Ok(scope) = user_task_scope(backend, env) {
        if same(scope.project_uuid.as_str(), uuid) {
            return Ok(scope);
        }
    }
    let message = cat3(
        "cannot resolve TaskScope for UUID ",
        uuid,
        " — only system and user subcontexts support receiving propagated tasks",
    );
    Err(fail(message.as_str()))
}

// ─── Up the parents ──────────────────────────────────────────────────

/// Repeating a task of the subcontext `from.context_uuid` in its ancestors, where
/// that ends within `steps` steps: at a subcontext without a parent, whose task
/// goes to the system subcontext, unless it is that. It fails at a parent that is
/// on the way already.
pub open spec fn propagate_within(
    w: World,
    env: EnvView,
    from: SourceView,
    task: TaskView,
    way: Seq<Text>,
    steps: nat,
) -> Option<(World, Outcome<()>)>
    decreases steps,
{
    if steps == 0 {
        None
    } else {
        let (w, parent) = get_parent_run(w, env, from.context_uuid);
        match parent {
            Err(e) => Some((w, Err(e))),
            Ok(None) => {
                let (w, scope) = global_scope_run(w, env);
                match scope {
                    Err(e) => Some((w, Err(e))),
                    Ok(scope) => if scope.project_uuid == from.context_uuid {
                        Some((w, Ok(())))
                    } else {
                        let (w, added) = w.add_task(scope, task, Some(from));
                        match added {
                            Err(e) => Some((w, Err(e))),
                            Ok(_) => Some((w, Ok(()))),
                        }
                    },
                }
            },
            Ok(Some(parent)) => if way.contains(parent) {
                Some((w, Err(cycle_failure(parent))))
            } else {
                let (w, scope) = scope_for_run(w, env, parent);
                match scope {
                    Err(e) => Some((w, Err(e))),
                    Ok(scope) => {
                        let (w, added) = w.add_task(scope, task, Some(from));
                        match added {
                            Err(e) => Some((w, Err(e))),
                            Ok((shadow, commit)) => propagate_within(
                                w,
                                env,
                                (SourceView { context_uuid: parent, task_uuid: shadow, commit }),
                                task,
                                way.push(parent),
                                (steps - 1) as nat,
                            ),
                        }
                    },
                }
            },
        }
    }
}

/// Is propagating from `first`, `taken` steps on, propagating from `from`, with
/// `more` steps left?
spec fn went_on(
    w0: World,
    env: EnvView,
    first: SourceView,
    task: TaskView,
    taken: nat,
    w: World,
    from: SourceView,
    way: Seq<Text>,
    more: nat,
) -> bool {
    propagate_within(w0, env, first, task, seq![first.context_uuid], taken + more)
        == propagate_within(w, env, from, task, way, more)
}

/// Propagate a task from a child context up through its parent chain. Each
/// parent gets a shadow task whose source points to the task of its child.
pub fn propagate_task_up<B: Backend>(
    backend: &mut B,
    env: &Env,
    source: TaskSource,
    task: &TaskFields,
) -> (r: Result<(), Failure>)
    ensures
        exists|steps: nat|
            #[trigger] propagate_within(
                old(backend).world(),
                env@,
                source@,
                task@,
                seq![source@.context_uuid],
                steps,
            ) == Some((final(backend).world(), outcome(r))),
{
    let ghost w0 = backend.world();
    let ghost first = source@;
    let ghost mut taken: nat = 0;
    // The subcontexts on the way up.
    let mut way: Vec<String> = Vec::new();
    way.push(source.context_uuid.clone());
    assert(way.deep_view() =~= seq![first.context_uuid]);
    let mut from = source;
    loop
        invariant
            w0 == old(backend).world(),
            first == source@,
            forall|more: nat|
                #[trigger] went_on(
                    w0,
                    env@,
                    first,
                    task@,
                    taken,
                    backend.world(),
                    from@,
                    way.deep_view(),
                    more,
                ),
        decreases usize::MAX - way@.len(),
    {
        let ghost now = backend.world();
        let ghost here = from@;
        let ghost before = way.deep_view();
        proof {
            assert(went_on(w0, env@, first, task@, taken, now, here, before, 1));
        }
        // Find the parent of this child via the system DB.
        let parent = match get_parent(backend, env, from.context_uuid.as_str())? {
            Some(parent) => parent,
            None => {
                // No parent: propagate to the global (system) context directly.
                let scope = global_task_scope(backend, env)?;
                if same(scope.project_uuid.as_str(), from.context_uuid.as_str()) {
                    return Ok(());
                }
                backend.add_task(&scope, task, Some(&from))?;
                return Ok(());
            },
        };
        if is_listed(&way, parent.as_str()) {
            let message = cat3("subcontext ", parent.as_str(), " is among its own ancestors");
            return Err(fail(message.as_str()));
        }

        // The parent may be the user subcontext or the system subcontext.
        let scope = resolve_scope_for_uuid(backend, env, parent.as_str())?;
        let (shadow, commit) = backend.add_task(&scope, task, Some(&from))?;

        // Go on from the parent to the grandparent.
        way.push(parent.clone());
        let ghost up = parent@;
        from = TaskSource { context_uuid: parent, task_uuid: shadow, commit };
        proof {
            assert(way.deep_view() =~= before.push(up));
            assert forall|more: nat|
                #[trigger] went_on(
                    w0,
                    env@,
                    first,
                    task@,
                    taken + 1,
                    backend.world(),
                    from@,
                    way.deep_view(),
                    more,
                ) by {
                assert(went_on(w0, env@, first, task@, taken, now, here, before, more + 1));
            }
            taken = taken + 1;
            assert(way.len() <= usize::MAX);
        }
    }
}

/// Recording the checkout of a child in the global subcontext.
pub open spec fn refresh_child_run(w: World, env: EnvView, uuid: Text, git_dir: Text) -> (
    World,
    Outcome<()>,
) {
    let (w, commit) = record_run(w, env, uuid, git_dir);
    match commit {
        Err(e) => (w, Err(e)),
        Ok(None) => (w, Ok(())),
        Ok(Some(commit)) => {
            let (w, scope) = global_scope_run(w, env);
            match scope {
                Err(e) => (w, Err(e)),
                Ok(scope) => {
                    let (w, updated) = w.store(
                        StoreCall::UpdateObjectCommit { scope, uuid, commit },
                    );
                    match updated {
                        Err(e) => (w, Err(e)),
                        Ok(_) => {
                            let (w, done) = w.store(
                                StoreCall::CommitState {
                                    state: scope.state_dir,
                                    message: "object update: "@ + uuid,
                                },
                            );
                            match done {
                                Err(e) => (w, Err(e)),
                                Ok(_) => (w, Ok(())),
                            }
                        },
                    }
                },
            }
        },
    }
}

/// Record the checkout of a child in the global subcontext.
fn refresh_child<B: Backend>(backend: &mut B, env: &Env, uuid: &str, git_dir: &str) -> (r: Result<
    (),
    Failure,
>)
    ensures
        (final(backend).world(), outcome(r)) == refresh_child_run(
            old(backend).world(),
            env@,
            uuid@,
            git_dir@,
        ),
{
    match record_child_checkout_path(backend, env, uuid, git_dir)? {
        None => Ok(()),
        Some(commit) => {
            let scope = global_task_scope(backend, env)?;
            backend.store(
                &StoreRequest::UpdateObjectCommit { scope: &scope, uuid, commit: commit.as_str() },
            )?;
            let message = cat("object update: ", uuid);
            backend.store(
                &StoreRequest::CommitState {
                    state: scope.state_dir.as_str(),
                    message: message.as_str(),
                },
            )?;
            Ok(())
        },
    }
}

/// Sharing a new task of the repository at `root` with the ancestors of its
/// subcontext, where that ends within `steps` steps.
pub open spec fn share_within(
    w: World,
    env: EnvView,
    root: Text,
    from: SourceView,
    task: TaskView,
    local_only: bool,
    steps: nat,
) -> Option<(World, Outcome<()>)> {
    if local_only {
        Some((w, Ok(())))
    } else {
        let (w, there) = exists_run(w, env);
        match there {
            Err(e) => Some((w, Err(e))),
            Ok(false) => Some((w, Ok(()))),
            Ok(true) => match propagate_within(
                w,
                env,
                from,
                task,
                seq![from.context_uuid],
                steps,
            ) {
                None => None,
                Some((w, Err(e))) => Some((w, Err(e))),
                Some((w, Ok(_))) => Some(
                    refresh_child_run(w, env, from.context_uuid, path_join(root, ".git"@)),
                ),
            },
        }
    }
}

/// Share a new task of the repository at `root` with the ancestors of its
/// subcontext, unless it is to stay local or there is no global subcontext.
pub fn share_task<B: Backend>(
    backend: &mut B,
    env: &Env,
    root: &str,
    source: TaskSource,
    task: &TaskFields,
    local_only: bool,
) -> (r: Result<(), Failure>)
    ensures
        exists|steps: nat|
            #[trigger] share_within(
                old(backend).world(),
                env@,
                root@,
                source@,
                task@,
                local_only,
                steps,
            ) == Some((final(backend).world(), outcome(r))),
{
    let ghost w0 = backend.world();
    let ghost from = source@;
    let ghost at_once = share_within(w0, env@, root@, from, task@, local_only, 0);
    if local_only || !global_exists(backend, env)? {
        return Ok(());
    }
    let uuid = source.context_uuid.clone();
    let ghost w1 = backend.world();
    let done = propagate_task_up(backend, env, source, task);
    proof {
        let steps = choose|steps: nat|
            #[trigger] propagate_within(
                w1,
                env@,
                from,
                task@,
                seq![from.context_uuid],
                steps,
            ) == Some((backend.world(), outcome(done)));
        let shared = share_within(w0, env@, root@, from, task@, local_only, steps);
    }
    done?;
    let git_dir = join_path(root, ".git");
    refresh_child(backend, env, uuid.as_str(), git_dir.as_str())
}

// ─── What is told of tasks ───────────────────────────────────────────

/// The name that a `TASK.md` gives its task.
pub open spec fn name_in(md: Text) -> Text {
    match value_for(frontmatter_of(md).0, "name"@) {
        Some(name) => name,
        None => Seq::empty(),
    }
}

/// The name that a `TASK.md` gives its task; empty where it gives none.
pub fn task_name(md: &str) -> (r: String)
    ensures
        r@ == name_in(md@),
{
    let (pairs, _) = parse_frontmatter(md);
    match FrontmatterMap(&pairs).get("name") {
        Some(name) => name,
        None => {
            let none = String::new();
            assert(none@ =~= Seq::<char>::empty());
            none
        },
    }
}

/// A task that a name stands for.
pub struct TaskMatch {
    pub uuid: String,
    pub branch: String,
    pub description: Option<String>,
}

/// The view of a task that a name stands for.
pub struct MatchView {
    pub uuid: Text,
    pub branch: Text,
    pub description: Option<Text>,
}

impl DeepView for TaskMatch {
    type V = MatchView;

    open spec fn deep_view(&self) -> MatchView {
        MatchView {
            uuid: self.uuid@,
            branch: self.branch@,
            description: self.description.deep_view(),
        }
    }
}

/// The line of a task that a name stands for.
pub open spec fn match_line(m: MatchView) -> Text {
    let description = match m.description {
        Some(description) => description,
        None => "(no description)"@,
    };
    "  "@ + m.uuid + " (branch: "@ + m.branch + ") — "@ + description + "\n"@
}

/// The lines of the tasks that a name stands for.
pub open spec fn match_lines(matches: Seq<MatchView>) -> Text
    decreases matches.len(),
{
    if matches.len() == 0 {
        Seq::empty()
    } else {
        match_lines(matches.drop_last()) + match_line(matches.last())
    }
}

/// What is told where a name stands for several tasks.
pub open spec fn ambiguous(name: Text, matches: Seq<MatchView>) -> Text {
    "Multiple tasks match '"@ + name + "' ("@ + decimal(matches.len()) + " matches):\n"@
        + match_lines(matches)
}

/// The line of a task that a name stands for.
fn line_of_match(m: &TaskMatch) -> (r: String)
    ensures
        r@ == match_line(m.deep_view()),
{
    let head = cat5("  ", m.uuid.as_str(), " (branch: ", m.branch.as_str(), ") — ");
    match &m.description {
        Some(description) => cat3(head.as_str(), description.as_str(), "\n"),
        None => cat3(head.as_str(), "(no description)", "\n"),
    }
}

/// Tell that a name stands for several tasks.
pub fn ambiguous_text(name_or_uuid: &str, matches: &Vec<TaskMatch>) -> (r: String)
    ensures
        r@ == ambiguous(name_or_uuid@, matches.deep_view()),
{
    let count = number_text(matches.len());
    let mut out = cat5("Multiple tasks match '", name_or_uuid, "' (", count.as_str(), " matches):\n");
    let ghost head = out@;
    let ghost all = matches.deep_view();
    let mut i: usize = 0;
    assert(out@ =~= head + match_lines(all.take(0)));
    while i < matches.len()
        invariant
            i <= matches@.len(),
            all == matches.deep_view(),
            out@ == head + match_lines(all.take(i as int)),
        decreases matches@.len() - i,
    {
        let line = line_of_match(&matches[i]);
        proof {
            assert(all.take(i + 1).drop_last() =~= all.take(i as int));
            assert(all.take(i + 1).last() == matches@[i as int].deep_view());
            assert((head + match_lines(all.take(i as int))) + line@ =~= head + (match_lines(
                all.take(i as int),
            ) + line@));
        }
        out = cat(out.as_str(), line.as_str());
        i = i + 1;
    }
    assert(all.take(matches@.len() as int) =~= all);
    out
}

// ─── Laws ────────────────────────────────────────────────────────────

/// The scope found for a UUID is that of the subcontext with this UUID.
pub proof fn scope_is_the_one_asked_for(w: World, env: EnvView, uuid: Text)
    ensures
        scope_for_run(w, env, uuid).1 matches Ok(scope) ==> scope.project_uuid == uuid,
{
}

/// Propagating is one: where it ends, it ends the same way however many steps it
/// may take.
pub proof fn propagation_is_one(
    w: World,
    env: EnvView,
    from: SourceView,
    task: TaskView,
    way: Seq<Text>,
    fewer: nat,
    more: nat,
)
    requires
        fewer <= more,
        propagate_within(w, env, from, task, way, fewer) is Some,
    ensures
        propagate_within(w, env, from, task, way, fewer) == propagate_within(
            w,
            env,
            from,
            task,
            way,
            more,
        ),
    decreases fewer,
{
    let (w1, parent) = get_parent_run(w, env, from.context_uuid);
    if parent is Ok && parent->Ok_0 is Some && !way.contains(parent->Ok_0->0) {
        let up = parent->Ok_0->0;
        let (w2, scope) = scope_for_run(w1, env, up);
        if scope is Ok {
            let (w3, added) = w2.add_task(scope->Ok_0, task, Some(from));
            if added is Ok {
                let next = SourceView {
                    context_uuid: up,
                    task_uuid: added->Ok_0.0,
                    commit: added->Ok_0.1,
                };
                propagation_is_one(
                    w3,
                    env,
                    next,
                    task,
                    way.push(up),
                    (fewer - 1) as nat,
                    (more - 1) as nat,
                );
            }
        }
    }
}

/// A task that is to stay local leaves the world as it is.
pub proof fn local_tasks_stay_local(
    w: World,
    env: EnvView,
    root: Text,
    from: SourceView,
    task: TaskView,
    steps: nat,
)
    ensures
        share_within(w, env, root, from, task, true, steps) == Some(
            (w, Ok::<(), Seq<Text>>(())),
        ),
{
}

} // verus!
