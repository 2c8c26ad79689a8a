//! What is put onto a machine: the user subcontext, and the Dolt program and its
//! databases.

use vstd::prelude::*;

use crate::dolt::{
    dolt_platform, download_run, find_bin_run, init_run, read_head_run, rows_among, rows_read,
    DoltView,
};
use crate::environment::EnvView;
use crate::global::{
    default_user_run, exists_run, global_scope_run, install_user_run, manage_user_run, new_user_run,
    register_run, root_of, setup_run, system_run, text_query_run,
};
use crate::json::{field_of, json_parsed, JsonView};
use crate::laws::global::{
    group_kept_global, holds, is_global_scope, system_scope_is_found, value_is_on_its_line,
};
use crate::laws::system::{
    answered, base_set_up, lemma_query, lemma_set_up, lemma_system, query_call, stored,
    system_answered, system_stored,
};
use crate::paths::path_join;
use crate::text::{joined, trimmed, Text};
use crate::trace::{did, group_did, Step};
use crate::world::{Call, ScopeView, StoreCall, World};

verus! {

broadcast use group_did;

// ─── The user subcontext ─────────────────────────────────────────────

/// A new user subcontext becomes a child of the system's, where it was registered
/// anew: its object is recorded in the system's scope and that is committed.
pub proof fn new_user_becomes_a_child(w: World, env: EnvView, uuid: Text)
    requires
        manage_user_run(w, env, uuid).1 is Ok,
    ensures
        ({
            let after = manage_user_run(w, env, uuid).0;
            let (w1, commit) = register_run(w, env, uuid, "user"@);
            &&& commit is Ok
            &&& commit->Ok_0 is Some ==> exists|scope: ScopeView| #[trigger]
                is_global_scope(scope, env) && did(
                    w1,
                    after,
                    seq![
                        Step::Well(
                            Call::Store(
                                StoreCall::InsertObject {
                                    scope,
                                    uuid,
                                    kind: "managed"@,
                                    commit: commit->Ok_0->0,
                                },
                            ),
                        ),
                    ].push(
                        Step::Well(
                            Call::Store(
                                StoreCall::CommitTracked { scope, message: "object add: "@ + uuid },
                            ),
                        ),
                    ),
                )
        }),
{
    broadcast use group_kept_global;

    let after = manage_user_run(w, env, uuid).0;
    let (w1, commit) = register_run(w, env, uuid, "user"@);
    if commit is Ok && commit->Ok_0 is Some {
        system_scope_is_found(w1, env);
        let (w2, scope) = global_scope_run(w1, env);
        assert(did(w1, w1, Seq::empty()));
        assert(did(w1, w2, Seq::empty()));
        let scope = scope->Ok_0;
        assert(is_global_scope(scope, env));
        assert(did(
            w1,
            after,
            seq![
                Step::Well(
                    Call::Store(
                        StoreCall::InsertObject {
                            scope,
                            uuid,
                            kind: "managed"@,
                            commit: commit->Ok_0->0,
                        },
                    ),
                ),
            ].push(
                Step::Well(
                    Call::Store(
                        StoreCall::CommitTracked { scope, message: "object add: "@ + uuid },
                    ),
                ),
            ),
        ));
    }
}

/// A new user becomes the current user where there is none; one that is there
/// stays.
pub proof fn first_user_becomes_current(w: World, env: EnvView, uuid: Text)
    requires
        default_user_run(w, env, uuid).1 is Ok,
    ensures
        ({
            let after = default_user_run(w, env, uuid).0;
            let root = root_of(env)->Ok_0;
            let question = crate::dolt::substituted(
                "SELECT value FROM config WHERE key_name = 'current_user'"@,
                Seq::empty(),
            );
            let sql = crate::dolt::substituted(
                "REPLACE INTO config (key_name, value) VALUES (?1, ?2)"@,
                seq!["current_user"@, uuid],
            );
            &&& root_of(env) is Ok
            &&& (exists|user: Text| #[trigger]
                system_answered(w, after, root, question, Some(user))) || (system_answered(
                w,
                after,
                root,
                question,
                None,
            ) && system_stored(w, after, env, sql, "set current user: "@ + uuid))
        }),
{
    broadcast use group_kept_global;

    let after = default_user_run(w, env, uuid).0;
    let root = root_of(env)->Ok_0;
    let question = crate::dolt::substituted(
        "SELECT value FROM config WHERE key_name = 'current_user'"@,
        Seq::empty(),
    );
    let sql = crate::dolt::substituted(
        "REPLACE INTO config (key_name, value) VALUES (?1, ?2)"@,
        seq!["current_user"@, uuid],
    );
    lemma_system(w, w, env);
    let (w1, system) = system_run(w, env);
    let (scope, conn) = system->Ok_0;
    let dolt = path_join(path_join(root, "global"@), "dolt"@);
    lemma_query(w, w1, conn, crate::global::user_query(), Seq::empty());
    let (w2, current) = text_query_run(w1, conn, crate::global::user_query(), Seq::empty());
    let output = choose|output: Text| #[trigger]
        answered(w, w2, conn.repo, question, conn.bin, output, current->Ok_0);
    let printed = seq![Step::Printed(query_call(conn.bin, dolt, question), output)];
    assert(did(w, w2, printed));
    assert(did(w, after, printed));
    assert(answered(w, after, dolt, question, conn.bin, output, current->Ok_0));
    assert(system_answered(w, after, root, question, current->Ok_0));
    if current->Ok_0 is None {
        assert(did(w, w2, Seq::empty()));
        assert(did(w, after, stored(root, conn.bin, sql, scope, "set current user: "@ + uuid)));
    } else {
        assert(system_answered(w, after, root, question, Some(current->Ok_0->0)));
    }
}

/// Installing the user subcontext, where there is a system subcontext, sets it up
/// below the global root with the kind `user`, registers it with the system and
/// sees to it that there is a current user; one that is there stays, and its UUID
/// is the one that its configuration holds. Without a system subcontext it is an
/// error.
pub proof fn user_subcontext_is_set_up(w: World, env: EnvView, fresh: Text)
    requires
        install_user_run(w, env, fresh).1 is Ok,
    ensures
        ({
            let (after, uuid) = install_user_run(w, env, fresh);
            let uuid = uuid->Ok_0;
            let root = root_of(env)->Ok_0;
            let base = path_join(root, "user"@);
            let config = path_join(path_join(base, "config"@), "subcontext.yaml"@);
            &&& root_of(env) is Ok
            &&& did(
                w,
                after,
                seq![Step::Yes(Call::Exists(path_join(path_join(root, "global"@), "repo"@)))],
            )
            &&& (exists|content: Text| #[trigger]
                did(
                    w,
                    after,
                    seq![Step::Yes(Call::Exists(path_join(base, "repo"@)))].push(
                        Step::Told(Call::Read(config), content),
                    ),
                ) && holds(content, "project_uuid:"@, uuid)) || (exists|w1: World, w2: World|
                #[trigger]
                base_set_up(w, w1, base, "user"@, fresh, uuid) && w2 == manage_user_run(
                    w1,
                    env,
                    uuid,
                ).0 && manage_user_run(w1, env, uuid).1 is Ok && #[trigger] default_user_run(
                    w2,
                    env,
                    uuid,
                ).1 is Ok && did(default_user_run(w2, env, uuid).0, after, Seq::empty()))
        }),
{
    let (after, uuid) = install_user_run(w, env, fresh);
    let uuid = uuid->Ok_0;
    let root = root_of(env)->Ok_0;
    let base = path_join(root, "user"@);
    let config = path_join(path_join(base, "config"@), "subcontext.yaml"@);
    let system = seq![
        Step::Yes(Call::Exists(path_join(path_join(root, "global"@), "repo"@))),
    ];
    let (w1, there) = exists_run(w, env);
    assert(did(w, w1, system));
    let (w2, installed) = w1.path_exists(path_join(base, "repo"@));
    assert(did(w, w2, system));
    assert(did(w, w2, Seq::empty()));
    if installed {
        let (w3, content) = w2.read(config);
        let content = content->Ok_0;
        value_is_on_its_line(content, "project_uuid:"@, uuid);
        assert(did(
            w,
            after,
            seq![Step::Yes(Call::Exists(path_join(base, "repo"@)))].push(
                Step::Told(Call::Read(config), content),
            ),
        ));
    } else {
        lemma_new_user(w, w2, env, base, fresh, system);
    }
}

proof fn lemma_new_user(
    w0: World,
    w: World,
    env: EnvView,
    base: Text,
    fresh: Text,
    steps: Seq<Step>,
)
    requires
        did(w0, w, steps),
        did(w0, w, Seq::empty()),
        new_user_run(w, env, base, fresh).1 is Ok,
    ensures
        did(w0, new_user_run(w, env, base, fresh).0, steps),
        ({
            let (after, uuid) = new_user_run(w, env, base, fresh);
            let uuid = uuid->Ok_0;
            exists|w1: World, w2: World| #[trigger]
                base_set_up(w0, w1, base, "user"@, fresh, uuid) && w2 == manage_user_run(
                    w1,
                    env,
                    uuid,
                ).0 && manage_user_run(w1, env, uuid).1 is Ok && #[trigger] default_user_run(
                    w2,
                    env,
                    uuid,
                ).1 is Ok && did(default_user_run(w2, env, uuid).0, after, Seq::empty())
        }),
{
    let (after, uuid) = new_user_run(w, env, base, fresh);
    let uuid = uuid->Ok_0;
    let n = w.note("[subcontext] Initializing user subcontext at "@ + base + "..."@);
    assert(did(w0, n, Seq::empty()));
    assert(did(w0, n, steps));
    lemma_set_up(w0, n, env, base, crate::project::USER_KIND@, fresh);
    let (w3, set) = setup_run(n, env, base, crate::project::USER_KIND@, fresh);
    lemma_kept_by_setup(w0, n, env, base, crate::project::USER_KIND@, fresh, steps);
    let w4 = manage_user_run(w3, env, uuid).0;
    lemma_kept_by_manage(w0, w3, env, uuid, steps);
    let w5 = default_user_run(w4, env, uuid).0;
    lemma_kept_by_default(w0, w4, env, uuid, steps);
    assert(after == w5.note("[subcontext] User subcontext installed (UUID: "@ + uuid + ")."@));
    assert(did(w5, w5, Seq::empty()));
    assert(did(w5, after, Seq::empty()));
    assert(base_set_up(w0, w3, base, "user"@, fresh, uuid));
    assert(default_user_run(w4, env, uuid).1 is Ok);
}

proof fn lemma_kept_by_manage(w0: World, w: World, env: EnvView, uuid: Text, steps: Seq<Step>)
    requires
        did(w0, w, steps),
    ensures
        did(w0, manage_user_run(w, env, uuid).0, steps),
{
    broadcast use group_kept_global;

}

proof fn lemma_kept_by_default(w0: World, w: World, env: EnvView, uuid: Text, steps: Seq<Step>)
    requires
        did(w0, w, steps),
    ensures
        did(w0, default_user_run(w, env, uuid).0, steps),
{
    broadcast use group_kept_global;

}

proof fn lemma_kept_by_setup(
    w0: World,
    w: World,
    env: EnvView,
    base: Text,
    kind: Text,
    fresh: Text,
    steps: Seq<Step>,
)
    requires
        did(w0, w, steps),
    ensures
        did(w0, setup_run(w, env, base, kind, fresh).0, steps),
{
    broadcast use group_kept_global;

    let w1 = w.create_dir_all(base).0;
    assert(did(w0, w1, steps));
    let (w2, config) = crate::global::setup_config_run(w1, base, kind, fresh);
    assert(did(w0, w2, steps));
    if config is Ok {
        let (tree, uuid) = config->Ok_0;
        let w3 = commit_all(w2, base, kind);
        assert(did(w0, w3, steps));
        let w4 = crate::global::setup_rest_run(w2, env, base, kind, tree).0;
        lemma_kept_by_rest(w0, w2, env, base, kind, tree, steps);
    }
}

spec fn commit_all(w: World, base: Text, kind: Text) -> World {
    crate::global::commit_all_run(
        w,
        crate::global::config_in(base),
        "subcontext: init "@ + kind + " config"@,
    ).0
}

proof fn lemma_kept_by_rest(
    w0: World,
    w: World,
    env: EnvView,
    base: Text,
    kind: Text,
    tree: Text,
    steps: Seq<Step>,
)
    requires
        did(w0, w, steps),
    ensures
        did(w0, crate::global::setup_rest_run(w, env, base, kind, tree).0, steps),
{
    broadcast use group_kept_global;

    let repo = crate::global::repo_in(base);
    let w1 = commit_all(w, base, kind);
    assert(did(w0, w1, steps));
    let w2 = crate::global::commit_to_ref(
        w1,
        repo,
        tree,
        "init overlay/main"@,
        "refs/heads/overlay/main"@,
    ).0;
    assert(did(w0, w2, steps));
    let w3 = w2.git(
        seq![
            "worktree"@,
            "add"@,
            crate::global::work_in(base),
            crate::global::DEFAULT_OVERLAY_BRANCH@,
        ],
        repo,
    ).0;
    assert(did(w0, w3, steps));
    let w4 = crate::global::dolt_ready_run(w3, env).0;
    assert(did(w0, w4, steps));
}

// ─── The Dolt program ────────────────────────────────────────────────

/// Where our own copy of the Dolt program lies.
pub open spec fn own_dolt(home: Text) -> Text {
    path_join(path_join(path_join(home, ".subcontext"@), "bin"@), "dolt"@)
}

/// The Dolt program is our own copy where there is one, else the one that `which`
/// finds; there is none only where there is neither.
pub proof fn own_dolt_goes_first(w: World, env: EnvView)
    ensures
        ({
            let (after, bin) = find_bin_run(w, env);
            let which = Call::Capture { program: "which"@, args: seq!["dolt"@], dir: None };
            let no_own = env.home is None || did(
                w,
                after,
                seq![Step::No(Call::IsFile(own_dolt(env.home->0)))],
            );
            match bin {
                Ok(path) => (env.home is Some && path == own_dolt(env.home->0) && did(
                    w,
                    after,
                    seq![Step::Yes(Call::IsFile(path))],
                )) || (no_own && exists|output: Text| #[trigger]
                    did(w, after, seq![Step::Printed(which, output)]) && path == trimmed(output)
                        && path.len() > 0),
                Err(_) => no_own && (did(w, after, seq![Step::Refused]) || exists|output: Text|
                    #[trigger]
                    did(w, after, seq![Step::Printed(which, output)]) && trimmed(output).len()
                        == 0),
            }
        }),
{
    let (after, bin) = find_bin_run(w, env);
    let which = Call::Capture { program: "which"@, args: seq!["dolt"@], dir: None };
    let (w1, there) = if env.home is Some {
        w.is_file(own_dolt(env.home->0))
    } else {
        (w, false)
    };
    if !there {
        let (w2, found) = w1.capture("which"@, seq!["dolt"@], None);
        assert(after == w2);
        if env.home is Some {
            assert(did(w, after, seq![Step::No(Call::IsFile(own_dolt(env.home->0)))]));
        }
        if found is Ok && found->Ok_0.success {
            assert(did(w, after, seq![Step::Printed(which, found->Ok_0.stdout)]));
        } else {
            assert(did(w, after, seq![Step::Refused]));
        }
    }
}

/// Downloading puts the Dolt program where our own copy lies, makes it executable
/// and answers with that path; a copy that is there is used. It fails only where
/// there is no home directory, where there is no release for the platform, or
/// where a request fails.
pub proof fn dolt_is_downloaded_to_its_place(w: World, env: EnvView)
    ensures
        ({
            let (after, bin) = download_run(w, env);
            let dest = own_dolt(env.home->0);
            let dir = path_join(path_join(env.home->0, ".subcontext"@), "bin"@);
            match bin {
                Ok(path) => env.home is Some && path == dest && (did(
                    w,
                    after,
                    seq![Step::Yes(Call::IsFile(dest))],
                ) || (dolt_platform(env.os, env.arch) is Some && did(
                    w,
                    after,
                    seq![
                        Step::Ran(
                            Call::Capture {
                                program: "sh"@,
                                args: seq![
                                    "-c"@,
                                    fetching(
                                        (dolt_platform(env.os, env.arch)->0).0,
                                        (dolt_platform(env.os, env.arch)->0).1,
                                        dir,
                                    ),
                                ],
                                dir: None,
                            },
                        ),
                    ].push(Step::Well(Call::SetMode { path: dest, mode: 0o755 })),
                ))),
                Err(_) => env.home is None || dolt_platform(env.os, env.arch) is None || did(
                    w,
                    after,
                    seq![Step::Refused],
                ),
            }
        }),
{
    let (after, bin) = download_run(w, env);
    if env.home is Some && dolt_platform(env.os, env.arch) is Some {
        let (os, arch) = dolt_platform(env.os, env.arch)->0;
        let dir = path_join(path_join(env.home->0, ".subcontext"@), "bin"@);
        lemma_command(os, arch, dir);
    }
}

/// The command that fetches a release of the Dolt program and unpacks it into a
/// directory.
pub open spec fn fetching(os: Text, arch: Text, dir: Text) -> Text {
    "curl -fsSL 'https://github.com/dolthub/dolt/releases/download/v1.85.0/dolt-"@ + os + "-"@
        + arch + ".tar.gz' | tar xz -C '"@ + dir + "' --strip-components=2 'dolt-"@ + os + "-"@
        + arch + "/bin/dolt'"@
}

proof fn lemma_command(os: Text, arch: Text, dir: Text)
    ensures
        crate::dolt::download_command(os, arch, dir) == fetching(os, arch, dir),
{
    reveal_strlit("curl -fsSL '");
    reveal_strlit("https://github.com/dolthub/dolt/releases/download/v");
    reveal_strlit("1.85.0");
    reveal_strlit("/");
    reveal_strlit("dolt-");
    reveal_strlit("-");
    reveal_strlit(".tar.gz");
    reveal_strlit("' | tar xz -C '");
    reveal_strlit("' --strip-components=2 '");
    reveal_strlit("/bin/dolt");
    reveal_strlit("'");
    reveal_strlit("curl -fsSL 'https://github.com/dolthub/dolt/releases/download/v1.85.0/dolt-");
    reveal_strlit(".tar.gz' | tar xz -C '");
    reveal_strlit("' --strip-components=2 'dolt-");
    reveal_strlit("/bin/dolt'");
    assert(crate::dolt::download_command(os, arch, dir) =~= fetching(os, arch, dir));
}

/// The release for each platform that there is one for.
pub proof fn releases_are_for_their_platforms(os: Text, arch: Text)
    ensures
        dolt_platform(os, arch) is Some <==> (os == "linux"@ || os == "macos"@) && (arch
            == "x86_64"@ || arch == "aarch64"@),
        dolt_platform(os, arch) matches Some(release) ==> {
            &&& release.0 == (if os == "linux"@ {
                "linux"@
            } else {
                "darwin"@
            })
            &&& release.1 == (if arch == "x86_64"@ {
                "amd64"@
            } else {
                "arm64"@
            })
        },
{
    reveal_strlit("linux");
    reveal_strlit("macos");
    reveal_strlit("x86_64");
    reveal_strlit("aarch64");
    assert("linux"@[0] != "macos"@[0]);
    assert("x86_64"@.len() != "aarch64"@.len());
}

/// A new database is made in its directory by the Dolt program, unless there is
/// one.
pub proof fn database_is_made(w: World, env: EnvView, path: Text)
    requires
        init_run(w, env, path).1 is Ok,
    ensures
        ({
            let after = init_run(w, env, path).0;
            let made = seq![Step::Well(Call::CreateDirAll(path))];
            let dot = path_join(path, ".dolt"@);
            did(w, after, made.push(Step::Yes(Call::IsDir(dot)))) || exists|bin: Text| #[trigger]
                did(
                    w,
                    after,
                    made.push(Step::No(Call::IsDir(dot))).push(database_inited(bin, path)),
                )
        }),
{
    let after = init_run(w, env, path).0;
    let made = seq![Step::Well(Call::CreateDirAll(path))];
    let dot = path_join(path, ".dolt"@);
    let w1 = w.create_dir_all(path).0;
    let (w2, there) = w1.is_dir(dot);
    if !there {
        let (w3, bin) = find_bin_run(w2, env);
        assert(did(w, w3, made.push(Step::No(Call::IsDir(dot)))));
        assert(did(
            w,
            after,
            made.push(Step::No(Call::IsDir(dot))).push(database_inited(bin->Ok_0, path)),
        ));
    }
}

/// The Dolt program made a database in the directory.
pub open spec fn database_inited(bin: Text, path: Text) -> Step {
    Step::Ran(
        Call::Capture {
            program: bin,
            args: seq!["init"@, "--name"@, "subcontext"@, "--email"@, "subcontext@local"@],
            dir: Some(path),
        },
    )
}

/// A commit of a database stages everything, commits it with the message, and
/// answers with the hash that the database's log then begins with.
pub proof fn commit_answers_with_the_new_head(w: World, c: DoltView, message: Text)
    requires
        c.commit(w, message).1 is Ok,
    ensures
        ({
            let (after, head) = c.commit(w, message);
            exists|output: Text| #[trigger]
                did(w, after, database_committed(c, message, output)) && rows_read(output) is Ok
                    && rows_read(output)->Ok_0.len() > 0 && crate::dolt::column::<String>(
                    rows_read(output)->Ok_0[0],
                    0,
                ) == Ok::<Text, Seq<Text>>(head->Ok_0)
        }),
{
    let (after, head) = c.commit(w, message);
    let add = seq!["add"@, "-A"@];
    let w1 = c.command(w, add, joined(add, " "@), Seq::empty()).0;
    let commit = seq![
        "commit"@,
        "--allow-empty"@,
        "-m"@,
        message,
        "--author"@,
        "subcontext <subcontext@local>"@,
    ];
    let w2 = c.command(w1, commit, joined(commit, " "@), Seq::empty()).0;
    let (w3, ran) = w2.capture(
        c.bin,
        seq![
            "sql"@,
            "-r"@,
            "json"@,
            "-q"@,
            "SELECT commit_hash FROM dolt_log LIMIT 1"@,
        ],
        Some(c.repo),
    );
    assert(did(w, after, database_committed(c, message, ran->Ok_0.stdout)));
}

/// Everything in the database was staged and committed, and then its log read.
pub open spec fn database_committed(c: DoltView, message: Text, output: Text) -> Seq<Step> {
    seq![
        Step::Ran(
            Call::Capture { program: c.bin, args: seq!["add"@, "-A"@], dir: Some(c.repo) },
        ),
    ].push(
        Step::Ran(
            Call::Capture {
                program: c.bin,
                args: seq![
                    "commit"@,
                    "--allow-empty"@,
                    "-m"@,
                    message,
                    "--author"@,
                    "subcontext <subcontext@local>"@,
                ],
                dir: Some(c.repo),
            },
        ),
    ).push(
        Step::Printed(
            query_call(c.bin, c.repo, "SELECT commit_hash FROM dolt_log LIMIT 1"@),
            output,
        ),
    )
}

/// The commit that a state records is what its `dolt_head` holds, without the
/// space around it; there is none where the file is missing or blank.
pub proof fn recorded_head_is_read(w: World, state: Text)
    ensures
        ({
            let (after, head) = read_head_run(w, state);
            let path = path_join(state, "dolt_head"@);
            match head {
                Ok(head) => (head is None && did(w, after, seq![Step::No(Call::IsFile(path))]))
                    || exists|content: Text| #[trigger]
                    did(w, after, seq![Step::Told(Call::Read(path), content)]) && (if trimmed(
                        content,
                    ).len() == 0 {
                        head is None
                    } else {
                        head == Some(trimmed(content))
                    }),
                Err(_) => did(w, after, seq![Step::Ill(Call::Read(path))]),
            }
        }),
{
    let path = path_join(state, "dolt_head"@);
    let (after, head) = read_head_run(w, state);
    let (w1, there) = w.is_file(path);
    let (w2, content) = w1.read(path);
    if !there {
        assert(after == w1);
        assert(did(w, after, seq![Step::No(Call::IsFile(path))]));
    } else if content is Ok {
        assert(after == w2);
        assert(did(w, after, seq![Step::Told(Call::Read(path), content->Ok_0)]));
    } else {
        assert(after == w2);
        assert(did(w, after, seq![Step::Ill(Call::Read(path))]));
    }
}

/// Are these the values of the record's fields, in their order?
pub open spec fn is_row_of(row: Seq<JsonView>, item: JsonView) -> bool {
    item is Record && row.len() == item->Record_0.len() && forall|j: int|
        0 <= j < row.len() ==> #[trigger] row[j] == item->Record_0[j].1
}

proof fn lemma_rows_among(items: Seq<JsonView>)
    requires
        forall|i: int| 0 <= i < items.len() ==> (#[trigger] items[i]) is Record,
    ensures
        rows_among(items).len() == items.len(),
        forall|k: int|
            0 <= k < items.len() ==> is_row_of(#[trigger] rows_among(items)[k], items[k]),
    decreases items.len(),
{
    if items.len() > 0 {
        let front = items.drop_last();
        let last = items[items.len() - 1];
        assert(last is Record);
        assert forall|i: int| 0 <= i < front.len() implies (#[trigger] front[i]) is Record by {
            assert(items[i] is Record);
        }
        lemma_rows_among(front);
        let rows = rows_among(items);
        assert(rows == rows_among(front).push(crate::dolt::row_values(last->Record_0)));
        assert forall|k: int| 0 <= k < items.len() implies is_row_of(
            #[trigger] rows[k],
            items[k],
        ) by {
            if k < front.len() {
                assert(rows[k] == rows_among(front)[k]);
                assert(front[k] == items[k]);
            }
        }
    }
}

/// The rows of an answer are the records that it lists under `rows`, in their
/// order, each with the values of its fields.
pub proof fn rows_are_the_records(output: Text, items: Seq<JsonView>)
    requires
        trimmed(output).len() > 0,
        json_parsed(trimmed(output)) is Ok,
        field_of(json_parsed(trimmed(output))->Ok_0, "rows"@) == Some(JsonView::List(items)),
        forall|i: int| 0 <= i < items.len() ==> (#[trigger] items[i]) is Record,
    ensures
        rows_read(output) is Ok,
        rows_read(output)->Ok_0.len() == items.len(),
        forall|k: int|
            0 <= k < items.len() ==> is_row_of(#[trigger] rows_read(output)->Ok_0[k], items[k]),
{
    lemma_rows_among(items);
}

} // verus!
