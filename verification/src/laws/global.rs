//! What the system and the user subcontext are asked for, and what they are told.

use vstd::prelude::*;

use crate::dolt::{batches_run, open_run, DoltView};
use crate::environment::EnvView;
use crate::failure::Outcome;
use crate::global::{
    commit_all_run, current_user_run, exists_run, get_parent_run, global_scope_run, object_text_run,
    object_tree_run, record_run, register_run, root_of, set_parent_run, system_run, text_query_run,
    user_scope_run,
};
use crate::json::JsonView;
use crate::objects::child_object_text;
use crate::paths::path_join;
use crate::project::{ensure_config_run, value_in, value_of};
use crate::propagate::{propagate_within, scope_for_run, share_within};
use crate::text::{lines_of, trimmed, Text};
use crate::trace::{bare_call, did, group_did, lemma_did_before, Step};
use crate::world::{Call, ScopeView, SourceView, StoreCall, TaskView, World};

verus! {

broadcast use group_did;

// ─── What was done before an operation stays done ────────────────────

pub broadcast proof fn lemma_kept_by_commit_all(
    w0: World,
    w: World,
    dir: Text,
    message: Text,
    steps: Seq<Step>,
)
    requires
        did(w0, w, steps),
    ensures
        #[trigger] did(w0, commit_all_run(w, dir, message).0, steps),
{
}

pub broadcast proof fn lemma_kept_by_ensure_config(
    w0: World,
    w: World,
    dir: Text,
    kind: Text,
    fresh: Text,
    steps: Seq<Step>,
)
    requires
        did(w0, w, steps),
    ensures
        #[trigger] did(w0, ensure_config_run(w, dir, kind, fresh).0, steps),
{
}

pub broadcast proof fn lemma_kept_by_batches(
    w0: World,
    w: World,
    c: DoltView,
    statements: Seq<Text>,
    i: nat,
    steps: Seq<Step>,
)
    requires
        did(w0, w, steps),
    ensures
        #[trigger] did(w0, batches_run(w, c, statements, i).0, steps),
    decreases statements.len() - i,
{
    if i < statements.len() {
        let (w1, done) = c.execute_batch(w, statements[i as int]);
        assert(did(w0, w1, steps));
        if done is Ok {
            lemma_kept_by_batches(w0, w1, c, statements, i + 1, steps);
        }
    }
}

pub broadcast proof fn lemma_kept_by_open(
    w0: World,
    w: World,
    env: EnvView,
    repo: Text,
    steps: Seq<Step>,
)
    requires
        did(w0, w, steps),
    ensures
        #[trigger] did(w0, open_run(w, env, repo).0, steps),
{
}

pub broadcast proof fn lemma_kept_by_global_scope(
    w0: World,
    w: World,
    env: EnvView,
    steps: Seq<Step>,
)
    requires
        did(w0, w, steps),
    ensures
        #[trigger] did(w0, global_scope_run(w, env).0, steps),
{
}

pub broadcast proof fn lemma_kept_by_user_scope(w0: World, w: World, env: EnvView, steps: Seq<Step>)
    requires
        did(w0, w, steps),
    ensures
        #[trigger] did(w0, user_scope_run(w, env).0, steps),
{
}

pub broadcast proof fn lemma_kept_by_system(w0: World, w: World, env: EnvView, steps: Seq<Step>)
    requires
        did(w0, w, steps),
    ensures
        #[trigger] did(w0, system_run(w, env).0, steps),
{
    broadcast use {lemma_kept_by_batches, lemma_kept_by_open, lemma_kept_by_global_scope};

}

pub broadcast proof fn lemma_kept_by_query(
    w0: World,
    w: World,
    c: DoltView,
    sql: Text,
    params: Seq<Text>,
    steps: Seq<Step>,
)
    requires
        did(w0, w, steps),
    ensures
        #[trigger] did(w0, text_query_run(w, c, sql, params).0, steps),
{
}

pub broadcast proof fn lemma_kept_by_get_parent(
    w0: World,
    w: World,
    env: EnvView,
    child: Text,
    steps: Seq<Step>,
)
    requires
        did(w0, w, steps),
    ensures
        #[trigger] did(w0, get_parent_run(w, env, child).0, steps),
{
    broadcast use {lemma_kept_by_system, lemma_kept_by_query};

}

pub broadcast proof fn lemma_kept_by_set_parent(
    w0: World,
    w: World,
    env: EnvView,
    child: Text,
    parent: Text,
    steps: Seq<Step>,
)
    requires
        did(w0, w, steps),
    ensures
        #[trigger] did(w0, set_parent_run(w, env, child, parent).0, steps),
{
    broadcast use {lemma_kept_by_system, lemma_kept_by_query};

}

pub broadcast proof fn lemma_kept_by_current_user(
    w0: World,
    w: World,
    env: EnvView,
    steps: Seq<Step>,
)
    requires
        did(w0, w, steps),
    ensures
        #[trigger] did(w0, current_user_run(w, env).0, steps),
{
    broadcast use {lemma_kept_by_system, lemma_kept_by_query};

}

pub broadcast proof fn lemma_kept_by_object_tree(
    w0: World,
    w: World,
    base: Text,
    uuid: Text,
    tmp: Text,
    index: Text,
    content: Text,
    steps: Seq<Step>,
)
    requires
        did(w0, w, steps),
    ensures
        #[trigger] did(w0, object_tree_run(w, base, uuid, tmp, index, content).0, steps),
{
}

pub broadcast proof fn lemma_kept_by_register(
    w0: World,
    w: World,
    env: EnvView,
    uuid: Text,
    kind: Text,
    steps: Seq<Step>,
)
    requires
        did(w0, w, steps),
    ensures
        #[trigger] did(w0, register_run(w, env, uuid, kind).0, steps),
{
    broadcast use lemma_kept_by_object_tree;

}

pub broadcast proof fn lemma_kept_by_record(
    w0: World,
    w: World,
    env: EnvView,
    uuid: Text,
    git_dir: Text,
    steps: Seq<Step>,
)
    requires
        did(w0, w, steps),
    ensures
        #[trigger] did(w0, record_run(w, env, uuid, git_dir).0, steps),
{
    broadcast use lemma_kept_by_object_tree;

}

pub broadcast proof fn lemma_kept_by_scope_for(
    w0: World,
    w: World,
    env: EnvView,
    uuid: Text,
    steps: Seq<Step>,
)
    requires
        did(w0, w, steps),
    ensures
        #[trigger] did(w0, scope_for_run(w, env, uuid).0, steps),
{
    broadcast use {lemma_kept_by_global_scope, lemma_kept_by_user_scope};

}

pub broadcast group group_kept_global {
    lemma_kept_by_commit_all,
    lemma_kept_by_ensure_config,
    lemma_kept_by_batches,
    lemma_kept_by_open,
    lemma_kept_by_global_scope,
    lemma_kept_by_user_scope,
    lemma_kept_by_system,
    lemma_kept_by_query,
    lemma_kept_by_get_parent,
    lemma_kept_by_set_parent,
    lemma_kept_by_current_user,
    lemma_kept_by_object_tree,
    lemma_kept_by_register,
    lemma_kept_by_record,
    lemma_kept_by_scope_for,
}

// ─── The values of a configuration ───────────────────────────────────

/// Is the line the label followed by this value, up to the space around it?
pub open spec fn gives(line: Text, label: Text, value: Text) -> bool {
    label.is_prefix_of(line) && trimmed(line.skip(label.len() as int)) == value && value.len() > 0
}

/// Is the line the label followed by any value?
pub open spec fn gives_any(line: Text, label: Text) -> bool {
    label.is_prefix_of(line) && trimmed(line.skip(label.len() as int)).len() > 0
}

/// Is the value given by the first line of the text that gives one for the
/// label?
pub open spec fn holds(content: Text, label: Text, value: Text) -> bool {
    exists|i: int|
        0 <= i < lines_of(content).len() && gives(#[trigger] lines_of(content)[i], label, value)
            && forall|j: int|
            0 <= j < i ==> !gives_any(#[trigger] lines_of(content)[j], label)
}

proof fn lemma_value_in(all: Seq<Text>, label: Text, i: int, value: Text)
    requires
        0 <= i < all.len(),
        gives(all[i], label, value),
        forall|j: int| 0 <= j < i ==> !gives_any(#[trigger] all[j], label),
    ensures
        value_in(all, label) == Some(value),
    decreases all.len(),
{
    if i > 0 {
        assert(!gives_any(all[0], label));
        let rest = all.skip(1);
        assert(rest[i - 1] == all[i]);
        assert forall|j: int| 0 <= j < i - 1 implies !gives_any(#[trigger] rest[j], label) by {
            assert(rest[j] == all[j + 1]);
        }
        lemma_value_in(rest, label, i - 1, value);
    }
}

proof fn lemma_value_found(all: Seq<Text>, label: Text) -> (i: int)
    requires
        value_in(all, label) is Some,
    ensures
        0 <= i < all.len(),
        gives(all[i], label, value_in(all, label)->0),
        forall|j: int| 0 <= j < i ==> !gives_any(#[trigger] all[j], label),
    decreases all.len(),
{
    if gives_any(all[0], label) {
        0
    } else {
        let rest = all.skip(1);
        let k = lemma_value_found(rest, label);
        assert forall|j: int| 0 <= j < k + 1 implies !gives_any(#[trigger] all[j], label) by {
            if j > 0 {
                assert(rest[j - 1] == all[j]);
            }
        }
        k + 1
    }
}

/// The value that is read for a label is the one that the first line with that
/// label and a value gives; none is read only where no line does.
pub proof fn value_is_on_its_line(content: Text, label: Text, value: Text)
    ensures
        value_of(content, label) == Some(value) <==> holds(content, label, value),
{
    let all = lines_of(content);
    if value_of(content, label) == Some(value) {
        let i = lemma_value_found(all, label);
        assert(gives(all[i], label, value));
    }
    if holds(content, label, value) {
        let i = choose|i: int|
            0 <= i < all.len() && gives(#[trigger] all[i], label, value) && forall|j: int|
                0 <= j < i ==> !gives_any(#[trigger] all[j], label);
        lemma_value_in(all, label, i, value);
    }
}

// ─── The scopes of the system and the user ───────────────────────────

/// Where the configuration of the subcontext `name` below the global root lies.
pub open spec fn config_of(root: Text, name: Text) -> Text {
    path_join(path_join(path_join(root, name), "config"@), "subcontext.yaml"@)
}

/// Do the directories of the scope lie in the subcontext `name` below the global
/// root?
pub open spec fn scope_lies_in(scope: ScopeView, root: Text, name: Text) -> bool {
    let base = path_join(root, name);
    &&& scope.repo_dir == path_join(base, "repo"@)
    &&& scope.state_dir == path_join(base, "state"@)
    &&& scope.dolt_dir == path_join(base, "dolt"@)
    &&& scope.scratch_base == base
    &&& scope.host_branch == "global"@
}

/// The configuration of the subcontext `name` was read, and this is it.
pub open spec fn config_read(root: Text, name: Text, content: Text) -> Seq<Step> {
    seq![Step::Told(Call::Read(config_of(root, name)), content)]
}

/// Was the subcontext `name` seen not to be the one with this UUID: its
/// configuration cannot be read, or holds another UUID or none?
pub open spec fn not_the_one(w0: World, w: World, root: Text, name: Text, uuid: Text) -> bool {
    ||| did(w0, w, seq![Step::Ill(Call::Read(config_of(root, name)))])
    ||| exists|content: Text| #[trigger]
        did(w0, w, config_read(root, name, content)) && !holds(content, "project_uuid:"@, uuid)
}

/// The scope of the system subcontext has its directories there, and the UUID
/// that its configuration holds. There is none only where there is no global
/// root, or where the configuration cannot be read or holds no UUID.
pub proof fn system_scope_is_found(w: World, env: EnvView)
    ensures
        ({
            let (after, scope) = global_scope_run(w, env);
            match (root_of(env), scope) {
                (Ok(root), Ok(scope)) => scope_lies_in(scope, root, "global"@) && exists|
                    content: Text,
                | #[trigger]
                    did(w, after, config_read(root, "global"@, content)) && holds(
                        content,
                        "project_uuid:"@,
                        scope.project_uuid,
                    ),
                (Ok(root), Err(_)) => forall|uuid: Text| #[trigger]
                    not_the_one(w, after, root, "global"@, uuid),
                (Err(_), _) => scope is Err,
            }
        }),
{
    lemma_system_scope(w, w, env);
}

proof fn lemma_system_scope(w0: World, w: World, env: EnvView)
    requires
        did(w0, w, Seq::empty()),
    ensures
        ({
            let (after, scope) = global_scope_run(w, env);
            match (root_of(env), scope) {
                (Ok(root), Ok(scope)) => scope_lies_in(scope, root, "global"@) && exists|
                    content: Text,
                | #[trigger]
                    did(w0, after, config_read(root, "global"@, content)) && holds(
                        content,
                        "project_uuid:"@,
                        scope.project_uuid,
                    ),
                (Ok(root), Err(_)) => forall|uuid: Text| #[trigger]
                    not_the_one(w0, after, root, "global"@, uuid),
                (Err(_), _) => scope is Err,
            }
        }),
{
    let (after, scope) = global_scope_run(w, env);
    if root_of(env) is Ok {
        let root = root_of(env)->Ok_0;
        let (w1, content) = w.read(config_of(root, "global"@));
        assert(after == w1);
        if content is Ok {
            let content = content->Ok_0;
            assert(did(w0, after, config_read(root, "global"@, content)));
            assert forall|uuid: Text| #[trigger] holds(content, "project_uuid:"@, uuid)
                <==> value_of(content, "project_uuid:"@) == Some(uuid) by {
                value_is_on_its_line(content, "project_uuid:"@, uuid);
            }
            if scope is Ok {
                assert(holds(content, "project_uuid:"@, scope->Ok_0.project_uuid));
            } else {
                assert forall|uuid: Text| #[trigger]
                    not_the_one(w0, after, root, "global"@, uuid) by {
                    assert(!holds(content, "project_uuid:"@, uuid));
                }
            }
        }
    }
}

/// The scope of the user subcontext has its directories there, and the UUID that
/// its configuration holds. There is none only where there is no global root,
/// where the user subcontext is not installed, or where its configuration cannot
/// be read or holds no UUID.
pub proof fn user_scope_is_found(w: World, env: EnvView)
    ensures
        ({
            let (after, scope) = user_scope_run(w, env);
            match (root_of(env), scope) {
                (Ok(root), Ok(scope)) => scope_lies_in(scope, root, "user"@) && exists|
                    content: Text,
                | #[trigger]
                    did(w, after, config_read(root, "user"@, content)) && holds(
                        content,
                        "project_uuid:"@,
                        scope.project_uuid,
                    ),
                (Ok(root), Err(_)) => forall|uuid: Text| #[trigger]
                    no_user(w, after, root, uuid),
                (Err(_), _) => scope is Err,
            }
        }),
{
    lemma_user_scope(w, w, env);
}

/// Was the user subcontext seen not to be the one with this UUID: it is not
/// installed, or its configuration does not hold that UUID?
pub open spec fn no_user(w0: World, w: World, root: Text, uuid: Text) -> bool {
    ||| did(
        w0,
        w,
        seq![Step::No(Call::Exists(path_join(path_join(root, "user"@), "repo"@)))],
    )
    ||| not_the_one(w0, w, root, "user"@, uuid)
}

proof fn lemma_user_scope(w0: World, w: World, env: EnvView)
    requires
        did(w0, w, Seq::empty()),
    ensures
        ({
            let (after, scope) = user_scope_run(w, env);
            match (root_of(env), scope) {
                (Ok(root), Ok(scope)) => scope_lies_in(scope, root, "user"@) && exists|
                    content: Text,
                | #[trigger]
                    did(w0, after, config_read(root, "user"@, content)) && holds(
                        content,
                        "project_uuid:"@,
                        scope.project_uuid,
                    ),
                (Ok(root), Err(_)) => forall|uuid: Text| #[trigger]
                    no_user(w0, after, root, uuid),
                (Err(_), _) => scope is Err,
            }
        }),
{
    let (after, scope) = user_scope_run(w, env);
    if root_of(env) is Ok {
        let root = root_of(env)->Ok_0;
        let place = path_join(path_join(root, "user"@), "repo"@);
        let (w1, there) = w.path_exists(place);
        if there {
            let (w2, content) = w1.read(config_of(root, "user"@));
            assert(after == w2);
            if content is Ok {
                let content = content->Ok_0;
                assert(did(w0, after, config_read(root, "user"@, content)));
                assert forall|uuid: Text| #[trigger] holds(content, "project_uuid:"@, uuid)
                    <==> value_of(content, "project_uuid:"@) == Some(uuid) by {
                    value_is_on_its_line(content, "project_uuid:"@, uuid);
                }
                if scope is Ok {
                    assert(holds(content, "project_uuid:"@, scope->Ok_0.project_uuid));
                } else {
                    assert forall|uuid: Text| #[trigger] no_user(w0, after, root, uuid) by {
                        assert(!holds(content, "project_uuid:"@, uuid));
                    }
                }
            }
        } else {
            assert(did(w0, after, seq![Step::No(Call::Exists(place))]));
        }
    }
}

/// The scope of a UUID is found wherever it can be: it is that of the system or
/// of the user subcontext, whichever has the UUID in its configuration, with its
/// directories there. Where none is found, both were looked at: the system's
/// configuration does not hold the UUID, and the user subcontext is not
/// installed or its configuration does not hold it either.
pub proof fn scope_is_found_where_it_is(w: World, env: EnvView, uuid: Text)
    ensures
        ({
            let (after, scope) = scope_for_run(w, env, uuid);
            match (root_of(env), scope) {
                (Ok(root), Ok(scope)) => scope.project_uuid == uuid && exists|
                    name: Text,
                    content: Text,
                | #[trigger]
                    did(w, after, config_read(root, name, content)) && holds(
                        content,
                        "project_uuid:"@,
                        uuid,
                    ) && scope_lies_in(scope, root, name) && (name == "global"@ || name
                        == "user"@),
                (Ok(root), Err(_)) => not_the_one(w, after, root, "global"@, uuid) && no_user(
                    w,
                    after,
                    root,
                    uuid,
                ),
                (Err(_), _) => scope is Err,
            }
        }),
{
    lemma_scope_for(w, w, env, uuid);
}

proof fn lemma_scope_for(w0: World, w: World, env: EnvView, uuid: Text)
    requires
        did(w0, w, Seq::empty()),
    ensures
        ({
            let (after, scope) = scope_for_run(w, env, uuid);
            match (root_of(env), scope) {
                (Ok(root), Ok(scope)) => scope.project_uuid == uuid && exists|
                    name: Text,
                    content: Text,
                | #[trigger]
                    did(w0, after, config_read(root, name, content)) && holds(
                        content,
                        "project_uuid:"@,
                        uuid,
                    ) && scope_lies_in(scope, root, name) && (name == "global"@ || name
                        == "user"@),
                (Ok(root), Err(_)) => not_the_one(w0, after, root, "global"@, uuid) && no_user(
                    w0,
                    after,
                    root,
                    uuid,
                ),
                (Err(_), _) => scope is Err,
            }
        }),
{
    broadcast use group_kept_global;

    let (after, scope) = scope_for_run(w, env, uuid);
    lemma_system_scope(w0, w, env);
    let (w1, system) = global_scope_run(w, env);
    assert(did(w0, w1, Seq::empty()));
    lemma_user_scope(w0, w1, env);
    let (w2, user) = user_scope_run(w1, env);
    if root_of(env) is Ok {
        let root = root_of(env)->Ok_0;
        let label = "project_uuid:"@;
        if system is Ok {
            let content = choose|content: Text| #[trigger]
                did(w0, w1, config_read(root, "global"@, content)) && holds(
                    content,
                    label,
                    system->Ok_0.project_uuid,
                );
            assert(did(w0, after, config_read(root, "global"@, content)));
            value_is_on_its_line(content, label, system->Ok_0.project_uuid);
            value_is_on_its_line(content, label, uuid);
        } else {
            assert(not_the_one(w0, w1, root, "global"@, uuid));
            lemma_still_not(w0, w1, after, root, "global"@, uuid);
        }
        if after == w2 {
            if user is Ok {
                let content = choose|content: Text| #[trigger]
                    did(w0, w2, config_read(root, "user"@, content)) && holds(
                        content,
                        label,
                        user->Ok_0.project_uuid,
                    );
                value_is_on_its_line(content, label, user->Ok_0.project_uuid);
                value_is_on_its_line(content, label, uuid);
            } else {
                assert(no_user(w0, w2, root, uuid));
            }
        }
    }
}

proof fn lemma_still_not(w0: World, w: World, after: World, root: Text, name: Text, uuid: Text)
    requires
        not_the_one(w0, w, root, name, uuid),
        did(w, after, Seq::empty()),
    ensures
        not_the_one(w0, after, root, name, uuid),
{
    if did(w0, w, seq![Step::Ill(Call::Read(config_of(root, name)))]) {
        lemma_did_before(w0, w, after, seq![Step::Ill(Call::Read(config_of(root, name)))]);
    } else {
        let content = choose|content: Text| #[trigger]
            did(w0, w, config_read(root, name, content)) && !holds(
                content,
                "project_uuid:"@,
                uuid,
            );
        lemma_did_before(w0, w, after, config_read(root, name, content));
    }
}

// ─── Propagating a task ──────────────────────────────────────────────

/// Adding a shadow of a task to a scope.
pub open spec fn shadow_call(scope: ScopeView, task: TaskView, from: SourceView) -> Call {
    Call::Store(StoreCall::AddTask { scope, task, source: Some(from) })
}

/// Is the scope that of the system or of the user subcontext below the global
/// root?
pub open spec fn is_global_scope(scope: ScopeView, env: EnvView) -> bool {
    root_of(env) is Ok && (scope_lies_in(scope, root_of(env)->Ok_0, "global"@) || scope_lies_in(
        scope,
        root_of(env)->Ok_0,
        "user"@,
    ))
}

/// Did the walk end, and end well, in this world?
pub open spec fn ends_well(end: Option<(World, Outcome<()>)>, after: World) -> bool {
    end is Some && (end->0).0 == after && (end->0).1 is Ok
}

proof fn lemma_kept_by_propagate(
    w0: World,
    w: World,
    env: EnvView,
    from: SourceView,
    task: TaskView,
    way: Seq<Text>,
    steps: nat,
    done: Seq<Step>,
)
    requires
        did(w0, w, done),
    ensures
        propagate_within(w, env, from, task, way, steps) matches Some(end) ==> did(
            w0,
            end.0,
            done,
        ),
    decreases steps,
{
    broadcast use group_kept_global;

    if steps > 0 {
        let (w1, parent) = get_parent_run(w, env, from.context_uuid);
        assert(did(w0, w1, done));
        if parent is Ok {
            if parent->Ok_0 is None {
                let (w2, scope) = global_scope_run(w1, env);
                assert(did(w0, w2, done));
            } else {
                let parent = parent->Ok_0->0;
                let (w2, scope) = scope_for_run(w1, env, parent);
                assert(did(w0, w2, done));
                if scope is Ok {
                    let (w3, added) = w2.add_task(scope->Ok_0, task, Some(from));
                    assert(did(w0, w3, done));
                    if added is Ok {
                        let (shadow, commit) = added->Ok_0;
                        lemma_kept_by_propagate(
                            w0,
                            w3,
                            env,
                            (SourceView { context_uuid: parent, task_uuid: shadow, commit }),
                            task,
                            way.push(parent),
                            (steps - 1) as nat,
                            done,
                        );
                    }
                }
            }
        }
    }
}

/// Propagating a task adds a shadow of it, with the task as its source, in the
/// scope of the parent, and then propagates that shadow. Where there is no
/// parent, the shadow is added in the scope of the system subcontext, unless the
/// task is the system's own.
pub proof fn propagation_adds_a_shadow_in_the_parent(
    w: World,
    env: EnvView,
    from: SourceView,
    task: TaskView,
    way: Seq<Text>,
    steps: nat,
)
    requires
        propagate_within(w, env, from, task, way, steps) is Some,
        (propagate_within(w, env, from, task, way, steps)->0).1 is Ok,
    ensures
        ({
            let after = (propagate_within(w, env, from, task, way, steps)->0).0;
            match get_parent_run(w, env, from.context_uuid).1 {
                Err(_) => false,
                Ok(Some(parent)) => exists|
                    scope: ScopeView,
                    shadow: Text,
                    commit: Text,
                    between: World,
                | #[trigger]
                    did(
                        w,
                        between,
                        seq![Step::Added(shadow_call(scope, task, from), shadow, commit)],
                    ) && scope.project_uuid == parent && is_global_scope(scope, env)
                        && ends_well(
                        propagate_within(
                            between,
                            env,
                            (SourceView { context_uuid: parent, task_uuid: shadow, commit }),
                            task,
                            way.push(parent),
                            (steps - 1) as nat,
                        ),
                        after,
                    ) && did(
                        w,
                        after,
                        seq![Step::Well(shadow_call(scope, task, from))],
                    ),
                Ok(None) => exists|scope: ScopeView| #[trigger]
                    is_global_scope(scope, env) && (scope.project_uuid == from.context_uuid || did(
                        w,
                        after,
                        seq![Step::Well(shadow_call(scope, task, from))],
                    )),
            }
        }),
{
    broadcast use group_kept_global;

    let after = (propagate_within(w, env, from, task, way, steps)->0).0;
    let (w1, parent) = get_parent_run(w, env, from.context_uuid);
    assert(did(w, w1, Seq::empty()));
    match parent {
        Err(e) => {
            assert(propagate_within(w, env, from, task, way, steps) == Some(
                (w1, Err::<(), Seq<Text>>(e)),
            ));
        },
        Ok(None) => {
            lemma_system_scope(w, w1, env);
            let (w2, scope) = global_scope_run(w1, env);
            assert(did(w, w2, Seq::empty()));
            assert(is_global_scope(scope->Ok_0, env));
        },
        Ok(Some(parent)) => {
            lemma_scope_for(w, w1, env, parent);
            let (w2, scope) = scope_for_run(w1, env, parent);
            assert(did(w, w2, Seq::empty()));
            let scope = scope->Ok_0;
            let (w3, added) = w2.add_task(scope, task, Some(from));
            let (shadow, commit) = added->Ok_0;
            assert(did(
                w,
                w3,
                seq![Step::Added(shadow_call(scope, task, from), shadow, commit)],
            ));
            assert(did(w, w3, seq![Step::Well(shadow_call(scope, task, from))]));
            lemma_kept_by_propagate(
                w,
                w3,
                env,
                (SourceView { context_uuid: parent, task_uuid: shadow, commit }),
                task,
                way.push(parent),
                (steps - 1) as nat,
                seq![Step::Well(shadow_call(scope, task, from))],
            );
            assert(propagate_within(
                w3,
                env,
                (SourceView { context_uuid: parent, task_uuid: shadow, commit }),
                task,
                way.push(parent),
                (steps - 1) as nat,
            ) == propagate_within(w, env, from, task, way, steps));
            assert(is_global_scope(scope, env));
        },
    }
}

/// Propagation fails only where a request does, where what the database tells of
/// a parent cannot be read, where a subcontext is among its own ancestors, or
/// where neither the system nor the user subcontext is the parent.
pub proof fn propagation_to_a_known_parent_succeeds(
    w: World,
    env: EnvView,
    from: SourceView,
    task: TaskView,
    way: Seq<Text>,
    steps: nat,
)
    requires
        propagate_within(w, env, from, task, way, steps) is Some,
        (propagate_within(w, env, from, task, way, steps)->0).1 is Err,
        get_parent_run(w, env, from.context_uuid).1 is Ok,
    ensures
        ({
            let after = (propagate_within(w, env, from, task, way, steps)->0).0;
            let parent = get_parent_run(w, env, from.context_uuid).1->Ok_0;
            ||| root_of(env) is Err
            ||| parent is None && (did(w, after, seq![Step::Refused]) || not_the_one(
                w,
                after,
                root_of(env)->Ok_0,
                "global"@,
                from.context_uuid,
            ))
            ||| parent is Some && (way.contains(parent->0) || (not_the_one(
                w,
                after,
                root_of(env)->Ok_0,
                "global"@,
                parent->0,
            ) && no_user(w, after, root_of(env)->Ok_0, parent->0)) || did(
                w,
                after,
                seq![Step::Refused],
            ) || exists|scope: ScopeView, shadow: Text, commit: Text, between: World| #[trigger]
                did(
                    w,
                    between,
                    seq![Step::Added(shadow_call(scope, task, from), shadow, commit)],
                ) && scope.project_uuid == parent->0 && propagate_within(
                    between,
                    env,
                    (SourceView { context_uuid: parent->0, task_uuid: shadow, commit }),
                    task,
                    way.push(parent->0),
                    (steps - 1) as nat,
                ) == propagate_within(w, env, from, task, way, steps))
        }),
{
    broadcast use group_kept_global;

    let (w1, parent) = get_parent_run(w, env, from.context_uuid);
    assert(did(w, w1, Seq::empty()));
    match parent->Ok_0 {
        None => {
            lemma_system_scope(w, w1, env);
            let (w2, scope) = global_scope_run(w1, env);
            assert(did(w, w2, Seq::empty()));
            if scope is Err && root_of(env) is Ok {
                assert(not_the_one(w, w2, root_of(env)->Ok_0, "global"@, from.context_uuid));
            }
        },
        Some(parent) => {
            lemma_scope_for(w, w1, env, parent);
            let (w2, scope) = scope_for_run(w1, env, parent);
            assert(did(w, w2, Seq::empty()));
            if !way.contains(parent) && scope is Ok {
                let scope = scope->Ok_0;
                let (w3, added) = w2.add_task(scope, task, Some(from));
                if added is Ok {
                    let (shadow, commit) = added->Ok_0;
                    assert(did(
                        w,
                        w3,
                        seq![Step::Added(shadow_call(scope, task, from), shadow, commit)],
                    ));
                }
            }
        },
    }
}

/// A task that is not local is propagated where a global subcontext is
/// installed, and after that the checkout is recorded with the child, and its new
/// commit in the system's scope.
pub proof fn sharing_propagates_and_records(
    w: World,
    env: EnvView,
    root: Text,
    from: SourceView,
    task: TaskView,
    steps: nat,
)
    requires
        exists_run(w, env).1 == Ok::<bool, Seq<Text>>(true),
        share_within(w, env, root, from, task, false, steps) is Some,
        (share_within(w, env, root, from, task, false, steps)->0).1 is Ok,
    ensures
        ({
            let after = (share_within(w, env, root, from, task, false, steps)->0).0;
            exists|between: World| #[trigger]
                did(between, after, Seq::empty()) && ends_well(
                    propagate_within(
                        exists_run(w, env).0,
                        env,
                        from,
                        task,
                        seq![from.context_uuid],
                        steps,
                    ),
                    between,
                ) && match record_run(
                    between,
                    env,
                    from.context_uuid,
                    path_join(root, ".git"@),
                ).1 {
                    Ok(Some(commit)) => exists|scope: ScopeView| #[trigger]
                        is_global_scope(scope, env) && did(
                            between,
                            after,
                            seq![
                                Step::Well(
                                    Call::Store(
                                        StoreCall::UpdateObjectCommit {
                                            scope,
                                            uuid: from.context_uuid,
                                            commit,
                                        },
                                    ),
                                ),
                            ].push(
                                Step::Well(
                                    Call::Store(
                                        StoreCall::CommitState {
                                            state: scope.state_dir,
                                            message: "object update: "@ + from.context_uuid,
                                        },
                                    ),
                                ),
                            ),
                        ),
                    Ok(None) => true,
                    Err(_) => false,
                }
        }),
{
    broadcast use group_kept_global;

    let after = (share_within(w, env, root, from, task, false, steps)->0).0;
    let w1 = exists_run(w, env).0;
    let (w2, _) = propagate_within(w1, env, from, task, seq![from.context_uuid], steps)->0;
    let (w3, commit) = record_run(w2, env, from.context_uuid, path_join(root, ".git"@));
    assert(did(w2, w3, Seq::empty()));
    if commit is Ok && commit->Ok_0 is Some {
        lemma_system_scope(w2, w3, env);
        let (w4, scope) = global_scope_run(w3, env);
        assert(did(w2, w4, Seq::empty()));
        assert(is_global_scope(scope->Ok_0, env));
        let updated = seq![
            Step::Well(
                Call::Store(
                    StoreCall::UpdateObjectCommit {
                        scope: scope->Ok_0,
                        uuid: from.context_uuid,
                        commit: commit->Ok_0->0,
                    },
                ),
            ),
        ];
        assert(did(
            w2,
            after,
            updated.push(
                Step::Well(
                    Call::Store(
                        StoreCall::CommitState {
                            state: scope->Ok_0.state_dir,
                            message: "object update: "@ + from.context_uuid,
                        },
                    ),
                ),
            ),
        ));
    }
    assert(did(w2, after, Seq::empty()));
    assert(ends_well(
        propagate_within(w1, env, from, task, seq![from.context_uuid], steps),
        w2,
    ));
    assert(commit is Ok);
}

// ─── Children ────────────────────────────────────────────────────────

/// A git command against a bare repo with an index file of its own.
pub open spec fn index_call(repo: Text, index: Text, args: Seq<Text>) -> Call {
    Call::Git {
        args: seq!["--git-dir="@ + repo] + args,
        cwd: repo,
        env_set: seq![("GIT_INDEX_FILE"@, index)],
        env_remove: Seq::empty(),
    }
}

/// The content was written, made a blob, and the blob put into a tree as
/// `object.json`, in the repo of the subcontext at `base`.
pub open spec fn object_written(
    base: Text,
    file: Text,
    index: Text,
    content: Text,
    blob: Text,
    tree: Text,
) -> Seq<Step> {
    let repo = path_join(base, "repo"@);
    seq![Step::Wrote(file, content)].push(
        Step::Told(bare_call(seq!["hash-object"@, "-w"@, file], repo, repo), blob),
    ).push(
        Step::Well(
            index_call(
                repo,
                index,
                seq![
                    "update-index"@,
                    "--add"@,
                    "--cacheinfo"@,
                    "100644,"@ + blob + ",object.json"@,
                ],
            ),
        ),
    ).push(Step::Told(index_call(repo, index, seq!["write-tree"@]), tree))
}

proof fn lemma_object_written(
    w0: World,
    w: World,
    base: Text,
    uuid: Text,
    tmp: Text,
    index: Text,
    content: Text,
) -> (blob: Text)
    requires
        did(w0, w, Seq::empty()),
    ensures
        ({
            let (after, tree) = object_tree_run(w, base, uuid, tmp, index, content);
            match tree {
                Ok(tree) => did(
                    w0,
                    after,
                    object_written(
                        base,
                        path_join(base, tmp + uuid + ".tmp"@),
                        path_join(base, index + uuid + ".tmp"@),
                        content,
                        blob,
                        tree,
                    ),
                ),
                Err(_) => did(w0, after, seq![Step::Refused]),
            }
        }),
{
    let repo = path_join(base, "repo"@);
    let w1 = w.create_dir_all(base).0;
    let (w2, blob) = crate::global::blob_run(
        w1,
        repo,
        path_join(base, tmp + uuid + ".tmp"@),
        content,
    );
    assert(did(w0, w1, Seq::empty()));
    assert(did(w0, w2, Seq::empty()));
    blob->Ok_0
}

/// Asking the repo of the system subcontext for the branch of an object.
pub open spec fn object_question(root: Text, uuid: Text) -> Call {
    let repo = path_join(path_join(root, "global"@), "repo"@);
    bare_call(
        seq!["show-ref"@, "--verify"@, "--quiet"@, "refs/heads/object/"@ + uuid],
        repo,
        repo,
    )
}

/// The branch of the object was set to a commit of its tree.
pub open spec fn child_committed(
    root: Text,
    uuid: Text,
    kind: Text,
    blob: Text,
    tree: Text,
    commit: Text,
) -> Seq<Step> {
    let base = path_join(root, "global"@);
    let repo = path_join(base, "repo"@);
    object_written(
        base,
        path_join(base, ".child-"@ + uuid + ".tmp"@),
        path_join(base, ".child-index-"@ + uuid + ".tmp"@),
        child_object_text(uuid, kind),
        blob,
        tree,
    ).push(
        Step::Told(
            bare_call(
                seq!["commit-tree"@, tree, "-m"@, "register child "@ + uuid],
                repo,
                repo,
            ),
            commit,
        ),
    ).push(
        Step::Well(
            bare_call(seq!["update-ref"@, "refs/heads/object/"@ + uuid, commit], repo, repo),
        ),
    )
}

/// Registering a child creates the branch of its object in the repo of the
/// system subcontext, with its UUID and kind in `object.json`. Nothing is
/// registered where there is no system subcontext or it has the object already;
/// it fails only where a request does.
pub proof fn registering_creates_the_object(w: World, env: EnvView, uuid: Text, kind: Text)
    requires
        root_of(env) is Ok,
    ensures
        ({
            let (after, commit) = register_run(w, env, uuid, kind);
            let root = root_of(env)->Ok_0;
            let repo = path_join(path_join(root, "global"@), "repo"@);
            match commit {
                Ok(Some(commit)) => exists|blob: Text, tree: Text| #[trigger]
                    did(w, after, child_committed(root, uuid, kind, blob, tree, commit)),
                Ok(None) => did(w, after, seq![Step::No(Call::Exists(repo))]) || did(
                    w,
                    after,
                    seq![Step::Well(object_question(root, uuid))],
                ),
                Err(_) => did(w, after, seq![Step::Refused]),
            }
        }),
{
    broadcast use lemma_kept_by_object_tree;

    let (after, commit) = register_run(w, env, uuid, kind);
    let root = root_of(env)->Ok_0;
    let base = path_join(root, "global"@);
    let repo = path_join(base, "repo"@);
    let (w1, there) = w.path_exists(repo);
    let (w2, known) = crate::global::has_object_run(w1, repo, uuid);
    assert(did(w, w2, Seq::empty()));
    if there && !known {
        let blob = lemma_object_written(
            w,
            w2,
            base,
            uuid,
            ".child-"@,
            ".child-index-"@,
            child_object_text(uuid, kind),
        );
        let (w3, tree) = object_tree_run(
            w2,
            base,
            uuid,
            ".child-"@,
            ".child-index-"@,
            child_object_text(uuid, kind),
        );
        assert(did(w, w3, Seq::empty()));
        if commit is Ok {
            assert(did(
                w,
                after,
                child_committed(root, uuid, kind, blob, tree->Ok_0, commit->Ok_0->0),
            ));
        }
    }
}

/// The branch of the object was moved on to a commit of the new tree on top of
/// the one that it was at.
pub open spec fn child_updated(
    root: Text,
    uuid: Text,
    content: Text,
    blob: Text,
    tree: Text,
    parent: Text,
    commit: Text,
) -> Seq<Step> {
    let base = path_join(root, "global"@);
    let repo = path_join(base, "repo"@);
    object_written(
        base,
        path_join(base, ".child-update-"@ + uuid + ".tmp"@),
        path_join(base, ".child-update-index-"@ + uuid + ".tmp"@),
        content,
        blob,
        tree,
    ).push(
        Step::Told(
            bare_call(seq!["rev-parse"@, "refs/heads/object/"@ + uuid], repo, repo),
            parent,
        ),
    ).push(
        Step::Told(
            bare_call(
                seq![
                    "commit-tree"@,
                    tree,
                    "-p"@,
                    parent,
                    "-m"@,
                    "update child "@ + uuid + " checkout_path"@,
                ],
                repo,
                repo,
            ),
            commit,
        ),
    ).push(
        Step::Well(
            bare_call(seq!["update-ref"@, "refs/heads/object/"@ + uuid, commit], repo, repo),
        ),
    )
}

/// Recording a checkout writes the object of the child with the path added, on
/// top of the commit that its branch was at.
pub proof fn recording_updates_the_object(w: World, env: EnvView, uuid: Text, path: Text)
    requires
        root_of(env) is Ok,
    ensures
        ({
            let (after, commit) = record_run(w, env, uuid, path);
            let root = root_of(env)->Ok_0;
            let repo = path_join(path_join(root, "global"@), "repo"@);
            let shown = bare_call(
                seq!["show"@, "object/"@ + uuid + ":object.json"@],
                repo,
                repo,
            );
            match commit {
                Ok(Some(commit)) => exists|
                    current: Text,
                    object: JsonView,
                    blob: Text,
                    tree: Text,
                    parent: Text,
                |
                    crate::json::json_parsed(current) is Ok
                        && crate::objects::object_with_path(
                        crate::json::json_parsed(current)->Ok_0,
                        path,
                    ) == Ok::<Option<JsonView>, Seq<Text>>(Some(object)) && did(
                        w,
                        after,
                        seq![Step::Told(shown, current)],
                    ) && #[trigger] did(
                        w,
                        after,
                        child_updated(
                            root,
                            uuid,
                            crate::json::document_text(object),
                            blob,
                            tree,
                            parent,
                            commit,
                        ),
                    ) && #[trigger] crate::json::json_parsed(current) is Ok,
                Ok(None) => did(w, after, seq![Step::No(Call::Exists(repo))]) || did(
                    w,
                    after,
                    seq![Step::Ill(object_question(root, uuid))],
                ) || exists|current: Text| #[trigger]
                    crate::json::json_parsed(current) is Ok && did(
                        w,
                        after,
                        seq![Step::Told(shown, current)],
                    ) && crate::objects::object_with_path(
                        crate::json::json_parsed(current)->Ok_0,
                        path,
                    ) == Ok::<Option<JsonView>, Seq<Text>>(None),
                Err(_) => did(w, after, seq![Step::Refused]) || exists|current: Text|
                    did(w, after, seq![Step::Told(shown, current)]) && (
                    #[trigger] crate::json::json_parsed(current) is Err
                        || crate::objects::object_with_path(
                        crate::json::json_parsed(current)->Ok_0,
                        path,
                    ) is Err),
            }
        }),
{
    broadcast use lemma_kept_by_object_tree;

    let (after, commit) = record_run(w, env, uuid, path);
    let root = root_of(env)->Ok_0;
    let base = path_join(root, "global"@);
    let repo = path_join(base, "repo"@);
    let shown = bare_call(seq!["show"@, "object/"@ + uuid + ":object.json"@], repo, repo);
    let (w1, there) = w.path_exists(repo);
    let (w2, known) = crate::global::has_object_run(w1, repo, uuid);
    if there && known {
        let (w3, current) = object_text_run(w2, repo, uuid);
        assert(did(w, w3, Seq::empty()));
        if current is Ok {
            let current = current->Ok_0;
            assert(did(w, w3, seq![Step::Told(shown, current)]));
            let object = crate::json::json_parsed(current);
            if object is Ok {
                let changed = crate::objects::object_with_path(object->Ok_0, path);
                if changed is Ok && changed->Ok_0 is Some {
                    let content = crate::json::document_text(changed->Ok_0->0);
                    let blob = lemma_object_written(
                        w,
                        w3,
                        base,
                        uuid,
                        ".child-update-"@,
                        ".child-update-index-"@,
                        content,
                    );
                    let (w4, tree) = object_tree_run(
                        w3,
                        base,
                        uuid,
                        ".child-update-"@,
                        ".child-update-index-"@,
                        content,
                    );
                    assert(did(w, w4, Seq::empty()));
                    assert(did(w, w4, seq![Step::Told(shown, current)]));
                    if tree is Ok {
                        let (w5, parent) = crate::global::bare(
                            w4,
                            repo,
                            seq!["rev-parse"@, crate::global::object_ref(uuid)],
                        );
                        if commit is Ok {
                            assert(did(
                                w,
                                after,
                                child_updated(
                                    root,
                                    uuid,
                                    content,
                                    blob,
                                    tree->Ok_0,
                                    parent->Ok_0,
                                    commit->Ok_0->0,
                                ),
                            ));
                            assert(did(w, after, seq![Step::Told(shown, current)]));
                        } else {
                            assert(did(w, after, seq![Step::Refused]));
                        }
                    }
                }
            }
        }
    }
}

} // verus!
