//! What the system subcontext keeps: parents, the current user, and the
//! subcontexts of the system and the user themselves.

use vstd::prelude::*;

use crate::dolt::{column, rows_read, substituted, DoltView};
use crate::environment::EnvView;
use crate::global::{
    commit_all_run, commit_to_ref, current_user_run, dolt_ready_run, exists_run, get_parent_run,
    global_scope_run, has_object_run, install_run, object_text_run, register_run, root_of,
    set_parent_run, set_user_run, setup_config_run, setup_rest_run, setup_run, system_run,
    text_query_run, user_scope_run,
};
use crate::install::{join_global_run, join_scope_run, join_user_run, manage_run};
use crate::laws::global::{
    group_kept_global, is_global_scope, object_question, scope_lies_in, system_scope_is_found,
};
use crate::laws::setup::{all_committed, configured, lemma_configured};
use crate::objects::{child_object_text, kind_in};
use crate::paths::path_join;
use crate::text::Text;
use crate::trace::{bare_call, did, git_call, group_did, Step};
use crate::world::{Call, ScopeView, StoreCall, World};

verus! {

broadcast use group_did;

// ─── The database of the system subcontext ───────────────────────────

/// Reading rows from the Dolt database in a directory.
pub open spec fn query_call(bin: Text, dolt: Text, sql: Text) -> Call {
    Call::Capture {
        program: bin,
        args: seq!["sql"@, "-r"@, "json"@, "-q"@, sql],
        dir: Some(dolt),
    }
}

/// Running a statement on the Dolt database in a directory.
pub open spec fn statement_call(bin: Text, dolt: Text, sql: Text) -> Call {
    Call::Capture { program: bin, args: seq!["sql"@, "-q"@, sql], dir: Some(dolt) }
}

/// Did the database answer the query with this text: the first column of the
/// first row, or nothing where there is no row?
pub open spec fn answered(
    w0: World,
    w: World,
    dolt: Text,
    sql: Text,
    bin: Text,
    output: Text,
    x: Option<Text>,
) -> bool {
    &&& did(w0, w, seq![Step::Printed(query_call(bin, dolt, sql), output)])
    &&& rows_read(output) is Ok
    &&& if rows_read(output)->Ok_0.len() == 0 {
        x is None
    } else {
        column::<Option<String>>(rows_read(output)->Ok_0[0], 0) == Ok::<
            Option<Text>,
            Seq<Text>,
        >(x)
    }
}

/// Did the database of the system subcontext answer the query so?
pub open spec fn system_answered(
    w0: World,
    w: World,
    root: Text,
    sql: Text,
    x: Option<Text>,
) -> bool {
    exists|bin: Text, output: Text| #[trigger]
        answered(
            w0,
            w,
            path_join(path_join(root, "global"@), "dolt"@),
            sql,
            bin,
            output,
            x,
        )
}

pub proof fn lemma_query(w0: World, w: World, c: DoltView, sql: Text, params: Seq<Text>)
    requires
        did(w0, w, Seq::empty()),
        text_query_run(w, c, sql, params).1 is Ok,
    ensures
        ({
            let (after, x) = text_query_run(w, c, sql, params);
            exists|output: Text| #[trigger]
                answered(w0, after, c.repo, substituted(sql, params), c.bin, output, x->Ok_0)
        }),
{
    let full = substituted(sql, params);
    let (after, x) = text_query_run(w, c, sql, params);
    let (w1, ran) = w.capture(
        c.bin,
        seq!["sql"@, "-r"@, "json"@, "-q"@, full],
        Some(c.repo),
    );
    let output = ran->Ok_0.stdout;
    assert(after == w1);
    assert(answered(w0, after, c.repo, full, c.bin, output, x->Ok_0));
}

pub proof fn lemma_system(w0: World, w: World, env: EnvView)
    requires
        did(w0, w, Seq::empty()),
        system_run(w, env).1 is Ok,
    ensures
        root_of(env) is Ok,
        ({
            let (scope, conn) = system_run(w, env).1->Ok_0;
            scope_lies_in(scope, root_of(env)->Ok_0, "global"@) && conn.repo == scope.dolt_dir
        }),
        did(w0, system_run(w, env).0, Seq::empty()),
{
    broadcast use group_kept_global;

    system_scope_is_found(w, env);
}

/// The parent of a subcontext is what the system's database tells: there is none
/// where there is no system subcontext or where the database has no row for the
/// child.
pub proof fn parent_is_what_the_database_tells(w: World, env: EnvView, child: Text)
    requires
        get_parent_run(w, env, child).1 is Ok,
    ensures
        ({
            let (after, parent) = get_parent_run(w, env, child);
            let root = root_of(env)->Ok_0;
            let sql = substituted(
                "SELECT parent_uuid FROM parents WHERE child_uuid = ?1"@,
                seq![child],
            );
            &&& root_of(env) is Ok
            &&& system_answered(w, after, root, sql, parent->Ok_0) || (parent->Ok_0 is None && did(
                w,
                after,
                seq![Step::No(Call::Exists(path_join(path_join(root, "global"@), "repo"@)))],
            ))
        }),
{
    let (after, parent) = get_parent_run(w, env, child);
    let (w1, there) = exists_run(w, env);
    if there->Ok_0 {
        lemma_system(w, w1, env);
        let (w2, system) = system_run(w1, env);
        let (scope, conn) = system->Ok_0;
        lemma_query(w, w2, conn, crate::global::parent_query(), seq![child]);
        let sql = substituted(
            "SELECT parent_uuid FROM parents WHERE child_uuid = ?1"@,
            seq![child],
        );
        let output = choose|output: Text| #[trigger]
            answered(w, after, conn.repo, sql, conn.bin, output, parent->Ok_0);
        assert(answered(
            w,
            after,
            path_join(path_join(root_of(env)->Ok_0, "global"@), "dolt"@),
            sql,
            conn.bin,
            output,
            parent->Ok_0,
        ));
    }
}

/// The current user is what the system's database tells.
pub proof fn current_user_is_what_the_database_tells(w: World, env: EnvView)
    requires
        current_user_run(w, env).1 is Ok,
    ensures
        ({
            let (after, user) = current_user_run(w, env);
            let root = root_of(env)->Ok_0;
            let sql = substituted(
                "SELECT value FROM config WHERE key_name = 'current_user'"@,
                Seq::empty(),
            );
            &&& root_of(env) is Ok
            &&& system_answered(w, after, root, sql, user->Ok_0) || (user->Ok_0 is None && did(
                w,
                after,
                seq![Step::No(Call::Exists(path_join(path_join(root, "global"@), "repo"@)))],
            ))
        }),
{
    let (after, user) = current_user_run(w, env);
    let (w1, there) = exists_run(w, env);
    if there->Ok_0 {
        lemma_system(w, w1, env);
        let (w2, system) = system_run(w1, env);
        let (scope, conn) = system->Ok_0;
        lemma_query(w, w2, conn, crate::global::user_query(), Seq::empty());
        let sql = substituted(
            "SELECT value FROM config WHERE key_name = 'current_user'"@,
            Seq::empty(),
        );
        let output = choose|output: Text| #[trigger]
            answered(w, after, conn.repo, sql, conn.bin, output, user->Ok_0);
        assert(answered(
            w,
            after,
            path_join(path_join(root_of(env)->Ok_0, "global"@), "dolt"@),
            sql,
            conn.bin,
            output,
            user->Ok_0,
        ));
    }
}

/// The statement was run on the system's database, and after that the database
/// committed.
pub open spec fn stored(root: Text, bin: Text, sql: Text, scope: ScopeView, message: Text) -> Seq<
    Step,
> {
    seq![
        Step::Ran(
            statement_call(bin, path_join(path_join(root, "global"@), "dolt"@), sql),
        ),
    ].push(Step::Well(Call::Store(StoreCall::CommitTracked { scope, message })))
}

/// Was the statement run on the system's database and committed in its scope?
pub open spec fn system_stored(
    w0: World,
    w: World,
    env: EnvView,
    sql: Text,
    message: Text,
) -> bool {
    exists|bin: Text, scope: ScopeView| #[trigger]
        did(w0, w, stored(root_of(env)->Ok_0, bin, sql, scope, message)) && is_global_scope(
            scope,
            env,
        )
}

/// Setting the parent of a subcontext stores it in the system's database, unless
/// the database tells that it is the parent already; another parent is an error.
pub proof fn parent_is_stored(w: World, env: EnvView, child: Text, parent: Text)
    requires
        set_parent_run(w, env, child, parent).1 is Ok,
    ensures
        ({
            let after = set_parent_run(w, env, child, parent).0;
            let question = substituted(
                "SELECT parent_uuid FROM parents WHERE child_uuid = ?1"@,
                seq![child],
            );
            let sql = substituted(
                "INSERT INTO parents (child_uuid, parent_uuid) VALUES (?1, ?2)"@,
                seq![child, parent],
            );
            &&& root_of(env) is Ok
            &&& system_answered(w, after, root_of(env)->Ok_0, question, Some(parent)) || (
            system_answered(w, after, root_of(env)->Ok_0, question, None) && system_stored(
                w,
                after,
                env,
                sql,
                "set parent of "@ + child + " to "@ + parent,
            ))
        }),
{
    broadcast use group_kept_global;

    let after = set_parent_run(w, env, child, parent).0;
    let question = substituted(
        "SELECT parent_uuid FROM parents WHERE child_uuid = ?1"@,
        seq![child],
    );
    let sql = substituted(
        "INSERT INTO parents (child_uuid, parent_uuid) VALUES (?1, ?2)"@,
        seq![child, parent],
    );
    lemma_system(w, w, env);
    let (w1, system) = system_run(w, env);
    let (scope, conn) = system->Ok_0;
    let root = root_of(env)->Ok_0;
    let dolt = path_join(path_join(root, "global"@), "dolt"@);
    lemma_query(w, w1, conn, crate::global::parent_query(), seq![child]);
    let (w2, existing) = text_query_run(w1, conn, crate::global::parent_query(), seq![child]);
    let output = choose|output: Text| #[trigger]
        answered(w, w2, conn.repo, question, conn.bin, output, existing->Ok_0);
    assert(did(
        w,
        w2,
        seq![Step::Printed(query_call(conn.bin, dolt, question), output)],
    ));
    assert(did(
        w,
        after,
        seq![Step::Printed(query_call(conn.bin, dolt, question), output)],
    ));
    assert(answered(w, after, dolt, question, conn.bin, output, existing->Ok_0));
    if existing->Ok_0 is None {
        assert(did(w, w2, Seq::empty()));
        assert(did(
            w,
            after,
            stored(root, conn.bin, sql, scope, "set parent of "@ + child + " to "@ + parent),
        ));
    }
}

/// Asking the repo of the system subcontext for the object of a subcontext.
pub open spec fn object_shown(root: Text, uuid: Text) -> Call {
    let repo = path_join(path_join(root, "global"@), "repo"@);
    bare_call(seq!["show"@, "object/"@ + uuid + ":object.json"@], repo, repo)
}

/// Setting the current user stores it in the system's database, for a subcontext
/// that is registered there with the kind `user`.
pub proof fn current_user_is_stored(w: World, env: EnvView, uuid: Text)
    requires
        set_user_run(w, env, uuid).1 is Ok,
    ensures
        ({
            let after = set_user_run(w, env, uuid).0;
            let root = root_of(env)->Ok_0;
            let sql = substituted(
                "REPLACE INTO config (key_name, value) VALUES (?1, ?2)"@,
                seq!["current_user"@, uuid],
            );
            &&& root_of(env) is Ok
            &&& system_stored(w, after, env, sql, "set current user: "@ + uuid)
            &&& exists|text: Text| #[trigger]
                did(
                    w,
                    after,
                    seq![Step::Well(object_question(root, uuid))].push(
                        Step::Told(object_shown(root, uuid), text),
                    ),
                ) && crate::json::json_parsed(text) is Ok && kind_in(
                    crate::json::json_parsed(text)->Ok_0,
                ) == Some("user"@)
        }),
{
    broadcast use group_kept_global;

    let after = set_user_run(w, env, uuid).0;
    let root = root_of(env)->Ok_0;
    let repo = path_join(path_join(root, "global"@), "repo"@);
    let sql = substituted(
        "REPLACE INTO config (key_name, value) VALUES (?1, ?2)"@,
        seq!["current_user"@, uuid],
    );
    let (w1, there) = exists_run(w, env);
    lemma_system(w, w1, env);
    let (w2, system) = system_run(w1, env);
    let (scope, conn) = system->Ok_0;
    let (w3, known) = has_object_run(w2, repo, uuid);
    let (w4, text) = object_text_run(w3, repo, uuid);
    let text = text->Ok_0;
    let seen = seq![Step::Well(object_question(root, uuid))].push(
        Step::Told(object_shown(root, uuid), text),
    );
    assert(did(w, w4, seen));
    assert(did(w, w4, Seq::empty()));
    lemma_not_empty();
    assert(did(w, after, seen));
    assert(did(w, after, stored(root, conn.bin, sql, scope, "set current user: "@ + uuid)));
}

proof fn lemma_not_empty()
    ensures
        "user"@ != Seq::<char>::empty(),
{
    reveal_strlit("user");
    assert("user"@.len() == 4);
}

// ─── Setting up the system and the user subcontext ───────────────────

/// A branch was set to a commit of the tree in the repo.
pub open spec fn branch_set(
    repo: Text,
    tree: Text,
    message: Text,
    reference: Text,
    commit: Text,
) -> Seq<Step> {
    seq![Step::Told(bare_call(seq!["commit-tree"@, tree, "-m"@, message], repo, repo), commit)].push(
        Step::Well(bare_call(seq!["update-ref"@, reference, commit], repo, repo)),
    )
}

/// The config branch was made on the empty tree in a new bare repo, and checked
/// out.
pub open spec fn base_made(base: Text, tree: Text, commit: Text) -> Seq<Step> {
    let repo = path_join(base, "repo"@);
    seq![Step::Well(git_call(seq!["init"@, "--bare"@, repo], base))].push(
        Step::Told(
            bare_call(seq!["hash-object"@, "-t"@, "tree"@, "/dev/null"@], repo, repo),
            tree,
        ),
    ).push(
        Step::Told(
            bare_call(seq!["commit-tree"@, tree, "-m"@, "init config branch"@], repo, repo),
            commit,
        ),
    ).push(
        Step::Well(bare_call(seq!["update-ref"@, "refs/heads/config"@, commit], repo, repo)),
    ).push(
        Step::Well(
            git_call(
                seq!["worktree"@, "add"@, path_join(base, "config"@), "config"@],
                repo,
            ),
        ),
    )
}

/// The overlay branch was made on the tree and checked out, and the state was set
/// up.
pub open spec fn base_filled(base: Text, tree: Text, commit: Text) -> Seq<Step> {
    let repo = path_join(base, "repo"@);
    branch_set(repo, tree, "init overlay/main"@, "refs/heads/overlay/main"@, commit).push(
        Step::Well(
            git_call(
                seq!["worktree"@, "add"@, path_join(base, "work"@), "overlay/main"@],
                repo,
            ),
        ),
    ).push(
        Step::Well(
            Call::Store(
                StoreCall::InitState {
                    repo,
                    state: path_join(base, "state"@),
                    dolt: path_join(base, "dolt"@),
                },
            ),
        ),
    )
}

/// Was the subcontext at `base` set up: its bare repo with a config branch, its
/// configuration with the kind and the UUID, committed, its overlay branch, and
/// its state?
pub open spec fn base_set_up(
    w0: World,
    w: World,
    base: Text,
    kind: Text,
    fresh: Text,
    uuid: Text,
) -> bool {
    exists|tree: Text, c1: Text, c2: Text, status: Text, w1: World, w2: World, w3: World|
        #[trigger]
        did(w0, w1, base_made(base, tree, c1)) && #[trigger] configured(
            w1,
            w2,
            path_join(base, "config"@),
            kind,
            fresh,
            uuid,
        ) && #[trigger] all_committed(
            w2,
            w3,
            path_join(base, "config"@),
            "subcontext: init "@ + kind + " config"@,
            status,
        ) && #[trigger] did(w3, w, base_filled(base, tree, c2))
}

proof fn lemma_base_made(w0: World, w: World, base: Text, kind: Text, fresh: Text) -> (r: (
    Text,
    World,
))
    requires
        did(w0, w, Seq::empty()),
        setup_config_run(w, base, kind, fresh).1 is Ok,
    ensures
        ({
            let (after, done) = setup_config_run(w, base, kind, fresh);
            did(w0, r.1, base_made(base, done->Ok_0.0, r.0)) && configured(
                r.1,
                after,
                path_join(base, "config"@),
                kind,
                fresh,
                done->Ok_0.1,
            )
        }),
{
    let repo = path_join(base, "repo"@);
    let cfg = path_join(base, "config"@);
    let w1 = w.git(seq!["init"@, "--bare"@, repo], base).0;
    let (w2, tree) = crate::global::bare(
        w1,
        repo,
        seq!["hash-object"@, "-t"@, "tree"@, "/dev/null"@],
    );
    let tree = tree->Ok_0;
    let (c, commit) = crate::global::bare(
        w2,
        repo,
        seq!["commit-tree"@, tree, "-m"@, "init config branch"@],
    );
    let w3 = commit_to_ref(w2, repo, tree, "init config branch"@, "refs/heads/config"@).0;
    let w4 = w3.git(seq!["worktree"@, "add"@, cfg, "config"@], repo).0;
    assert(did(w0, w4, base_made(base, tree, commit->Ok_0)));
    lemma_configured(w4, w4, cfg, kind, fresh);
    (commit->Ok_0, w4)
}

proof fn lemma_base_filled(w: World, env: EnvView, base: Text, kind: Text, tree: Text) -> (r: (
    Text,
    Text,
    World,
))
    requires
        setup_rest_run(w, env, base, kind, tree).1 is Ok,
    ensures
        ({
            let after = setup_rest_run(w, env, base, kind, tree).0;
            all_committed(
                w,
                r.2,
                path_join(base, "config"@),
                "subcontext: init "@ + kind + " config"@,
                r.1,
            ) && did(r.2, after, base_filled(base, tree, r.0))
        }),
{
    let repo = path_join(base, "repo"@);
    let cfg = path_join(base, "config"@);
    let message = "subcontext: init "@ + kind + " config"@;
    let a = w.git(seq!["add"@, "-A"@], cfg).0;
    let (s, status) = a.git(seq!["status"@, "--porcelain"@], cfg);
    let w1 = commit_all_run(w, cfg, message).0;
    assert(all_committed(w, w1, cfg, message, status->Ok_0));
    let (c, commit) = crate::global::bare(
        w1,
        repo,
        seq!["commit-tree"@, tree, "-m"@, "init overlay/main"@],
    );
    let w2 = commit_to_ref(w1, repo, tree, "init overlay/main"@, "refs/heads/overlay/main"@).0;
    let set = branch_set(
        repo,
        tree,
        "init overlay/main"@,
        "refs/heads/overlay/main"@,
        commit->Ok_0,
    );
    assert(did(w1, w2, set));
    let w3 = w2.git(
        seq!["worktree"@, "add"@, path_join(base, "work"@), crate::global::DEFAULT_OVERLAY_BRANCH@],
        repo,
    ).0;
    let added = set.push(
        Step::Well(
            git_call(
                seq!["worktree"@, "add"@, path_join(base, "work"@), "overlay/main"@],
                repo,
            ),
        ),
    );
    assert(did(w1, w3, added));
    let w4 = dolt_ready_run(w3, env).0;
    assert(did(w1, w4, added));
    (commit->Ok_0, status->Ok_0, w1)
}

pub proof fn lemma_set_up(w0: World, w: World, env: EnvView, base: Text, kind: Text, fresh: Text)
    requires
        did(w0, w, Seq::empty()),
        setup_run(w, env, base, kind, fresh).1 is Ok,
    ensures
        ({
            let (after, uuid) = setup_run(w, env, base, kind, fresh);
            base_set_up(w0, after, base, kind, fresh, uuid->Ok_0)
        }),
{
    let (after, uuid) = setup_run(w, env, base, kind, fresh);
    let w1 = w.create_dir_all(base).0;
    assert(did(w0, w1, Seq::empty()));
    let (c1, made) = lemma_base_made(w0, w1, base, kind, fresh);
    let (w2, config) = setup_config_run(w1, base, kind, fresh);
    let (tree, u) = config->Ok_0;
    let (c2, status, committed) = lemma_base_filled(w2, env, base, kind, tree);
    assert(did(w0, made, base_made(base, tree, c1)));
    assert(configured(made, w2, path_join(base, "config"@), kind, fresh, u));
    assert(all_committed(
        w2,
        committed,
        path_join(base, "config"@),
        "subcontext: init "@ + kind + " config"@,
        status,
    ));
    assert(did(committed, after, base_filled(base, tree, c2)));
}

/// Installing the system subcontext sets it up below the global root, unless it
/// is there.
pub proof fn system_subcontext_is_set_up(w: World, env: EnvView, fresh: Text)
    requires
        install_run(w, env, fresh).1 is Ok,
    ensures
        ({
            let after = install_run(w, env, fresh).0;
            let base = path_join(root_of(env)->Ok_0, "global"@);
            &&& root_of(env) is Ok
            &&& did(w, after, seq![Step::Yes(Call::Exists(path_join(base, "repo"@)))]) || exists|
                uuid: Text,
                end: World,
            | #[trigger]
                base_set_up(w, end, base, "system"@, fresh, uuid) && did(
                    end,
                    after,
                    Seq::empty(),
                )
        }),
{
    let base = path_join(root_of(env)->Ok_0, "global"@);
    let (w1, there) = w.path_exists(path_join(base, "repo"@));
    if !there {
        let w2 = w1.note("[subcontext] Initializing global subcontext at "@ + base + "..."@);
        lemma_set_up(w, w2, env, base, crate::project::SYSTEM_KIND@, fresh);
        let (w3, uuid) = setup_run(w2, env, base, crate::project::SYSTEM_KIND@, fresh);
        assert(base_set_up(w, w3, base, "system"@, fresh, uuid->Ok_0));
        assert(did(w3, w3, Seq::empty()));
    }
}

/// Was the child given to the scope: its object recorded there and the state
/// committed?
pub open spec fn managed(scope: ScopeView, uuid: Text, commit: Text, tracked_by: Step) -> Seq<
    Step,
> {
    seq![
        Step::Well(
            Call::Store(
                StoreCall::InsertObject { scope, uuid, kind: "managed"@, commit },
            ),
        ),
    ].push(tracked_by)
}

/// A project that is installed where there is a system subcontext becomes a child
/// of it: where it was registered anew, its object is recorded in the system's
/// scope and the state committed.
pub proof fn installed_project_becomes_a_child(w: World, env: EnvView, uuid: Text)
    requires
        join_global_run(w, env, uuid).1 is Ok,
    ensures
        ({
            let after = join_global_run(w, env, uuid).0;
            let (w1, commit) = register_run(w, env, uuid, "project"@);
            &&& did(w1, after, Seq::empty())
            &&& commit is Ok
            &&& commit->Ok_0 is Some ==> global_scope_run(w1, env).1 is Err || exists|
                scope: ScopeView,
            | #[trigger]
                is_global_scope(scope, env) && did(
                    w1,
                    after,
                    managed(
                        scope,
                        uuid,
                        commit->Ok_0->0,
                        Step::Well(
                            Call::Store(
                                StoreCall::CommitState {
                                    state: scope.state_dir,
                                    message: "object add: "@ + uuid,
                                },
                            ),
                        ),
                    ),
                )
        }),
{
    broadcast use group_kept_global;

    let after = join_global_run(w, env, uuid).0;
    let (w1, commit) = register_run(w, env, uuid, "project"@);
    assert(did(w1, w1, Seq::empty()));
    if commit is Ok && commit->Ok_0 is Some {
        system_scope_is_found(w1, env);
        let (w2, scope) = global_scope_run(w1, env);
        assert(did(w1, w2, Seq::empty()));
        if scope is Ok {
            assert(is_global_scope(scope->Ok_0, env));
            lemma_managed(w1, w2, scope->Ok_0, uuid, commit->Ok_0->0);
        }
    }
}

proof fn lemma_managed(w0: World, w: World, scope: ScopeView, uuid: Text, commit: Text)
    requires
        did(w0, w, Seq::empty()),
        manage_run(w, scope, uuid, commit).1 is Ok,
    ensures
        did(
            w0,
            manage_run(w, scope, uuid, commit).0,
            managed(
                scope,
                uuid,
                commit,
                Step::Well(
                    Call::Store(
                        StoreCall::CommitState {
                            state: scope.state_dir,
                            message: "object add: "@ + uuid,
                        },
                    ),
                ),
            ),
        ),
        did(w0, manage_run(w, scope, uuid, commit).0, Seq::empty()),
{
}

/// A project that is installed where there is a current user becomes a child of
/// that user: where the user's scope can be found, its object is created there
/// unless it is there already, and in any case the user is set as its parent.
pub proof fn installed_project_belongs_to_the_user(w: World, env: EnvView, uuid: Text)
    requires
        join_user_run(w, env, uuid).1 is Ok,
        exists_run(w, env).1 == Ok::<bool, Seq<Text>>(true),
    ensures
        ({
            let after = join_user_run(w, env, uuid).0;
            let w1 = exists_run(w, env).0;
            let (w2, user) = current_user_run(w1, env);
            user is Ok && user->Ok_0 is Some ==> exists|before: World| #[trigger]
                did(w2, before, Seq::empty()) && after == set_parent_run(
                    before,
                    env,
                    uuid,
                    user->Ok_0->0,
                ).0 && match user_scope_run(w2, env).1 {
                    Err(_) => true,
                    Ok(scope) => scope_joined(w2, before, scope, uuid),
                }
        }),
{
    broadcast use group_kept_global;

    let after = join_user_run(w, env, uuid).0;
    let w1 = exists_run(w, env).0;
    let (w2, user) = current_user_run(w1, env);
    if user is Ok && user->Ok_0 is Some {
        let (w3, scope) = user_scope_run(w2, env);
        assert(did(w2, w2, Seq::empty()));
        assert(did(w2, w3, Seq::empty()));
        if scope is Ok {
            let scope = scope->Ok_0;
            let (w4, joined) = join_scope_run(w3, scope, uuid);
            lemma_scope_joined(w2, w3, scope, uuid);
            assert(after == set_parent_run(w4, env, uuid, user->Ok_0->0).0);
        } else {
            assert(after == set_parent_run(w3, env, uuid, user->Ok_0->0).0);
        }
    }
}

/// Asking a scope's repo for the branch of an object.
pub open spec fn scope_question(scope: ScopeView, uuid: Text) -> Call {
    bare_call(
        seq!["show-ref"@, "--verify"@, "--quiet"@, "refs/heads/object/"@ + uuid],
        scope.repo_dir,
        scope.repo_dir,
    )
}

/// Is the child in the scope: it was there, or its object was created there as
/// that of a project, and recorded?
pub open spec fn scope_joined(w0: World, w: World, scope: ScopeView, uuid: Text) -> bool {
    ||| did(w0, w, seq![Step::Well(scope_question(scope, uuid))])
    ||| exists|commit: Text| #[trigger]
        did(
            w0,
            w,
            seq![
                Step::Told(
                    Call::Store(
                        StoreCall::CreateObjectBranch {
                            scope,
                            uuid,
                            object_json: child_object_text(uuid, "project"@),
                        },
                    ),
                    commit,
                ),
            ].push(
                Step::Well(
                    Call::Store(
                        StoreCall::InsertObject { scope, uuid, kind: "managed"@, commit },
                    ),
                ),
            ).push(
                Step::Well(
                    Call::Store(
                        StoreCall::CommitState {
                            state: scope.state_dir,
                            message: "object add: "@ + uuid,
                        },
                    ),
                ),
            ),
        )
}

proof fn lemma_scope_joined(w0: World, w: World, scope: ScopeView, uuid: Text)
    requires
        did(w0, w, Seq::empty()),
        join_scope_run(w, scope, uuid).1 is Ok,
    ensures
        scope_joined(w0, join_scope_run(w, scope, uuid).0, scope, uuid),
        did(w0, join_scope_run(w, scope, uuid).0, Seq::empty()),
{
    let after = join_scope_run(w, scope, uuid).0;
    let (w1, known) = has_object_run(w, scope.repo_dir, uuid);
    if !known {
        let (w2, commit) = w1.store(
            StoreCall::CreateObjectBranch {
                scope,
                uuid,
                object_json: child_object_text(uuid, crate::project::SUBCONTEXT_KIND@),
            },
        );
        let commit = commit->Ok_0;
        let created = seq![
            Step::Told(
                Call::Store(
                    StoreCall::CreateObjectBranch {
                        scope,
                        uuid,
                        object_json: child_object_text(uuid, "project"@),
                    },
                ),
                commit,
            ),
        ];
        assert(did(w0, w2, created));
        assert(did(
            w0,
            after,
            created.push(
                Step::Well(
                    Call::Store(
                        StoreCall::InsertObject { scope, uuid, kind: "managed"@, commit },
                    ),
                ),
            ).push(
                Step::Well(
                    Call::Store(
                        StoreCall::CommitState {
                            state: scope.state_dir,
                            message: "object add: "@ + uuid,
                        },
                    ),
                ),
            ),
        ));
    }
}

} // verus!
