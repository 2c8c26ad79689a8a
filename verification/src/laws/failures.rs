//! Where an operation fails: only where a request does, or for a reason that is
//! named here.

use vstd::prelude::*;

use crate::board::{create_branch_run, create_run, furnish_run, worktree_run, BoardView};
use crate::clone::{attach_overlay_run, attach_state_run, clone_run, fetch_run};
use crate::environment::{home_of, EnvView};
use crate::git::{config_path, current_branch_run, subcontext_path, Checkout};
use crate::global::register_run;
use crate::install::{
    alias_run, backup_from_run, backup_one_run, backup_run, commit_config_run, configure_run,
    dispatches_run, ensure_hook_run, ensure_repo_run, from_hooks_run, hooks_run, install_run,
    join_global_run, join_user_run, OurHooks,
};
use crate::json::json_parsed;
use crate::laws::global::{group_kept_global, holds};
use crate::laws::install::group_kept_install;
use crate::laws::overlay::{group_kept, lemma_apply, lemma_sync};
use crate::laws::setup::{lemma_configured, lemma_settings, settings_file};
use crate::overlay::{apply_run, clean_run, sync_run};
use crate::paths::{file_name_of, path_join};
use crate::project::SUBCONTEXT_KIND;
use crate::settings::{merge_run, settings_merged};
use crate::skills::{install_from_run, install_one_run};
use crate::text::Text;
use crate::trace::{did, group_did, Step};
use crate::uninstall::{
    remove_alias_run, remove_settings_run, restore_hook_run, unapplied, uninstall_run,
};
use crate::world::{Call, World};

verus! {

broadcast use group_did;

// ─── Hooks ───────────────────────────────────────────────────────────

/// Was a request refused, or was the mode of a file read that has no name?
pub open spec fn hooks_refused(w0: World, w: World) -> bool {
    ||| did(w0, w, seq![Step::Refused])
    ||| exists|path: Text|
        file_name_of(path) is None && #[trigger] did(w0, w, seq![Step::Just(Call::Mode(path))])
}

proof fn lemma_backup_refused(
    w0: World,
    w: World,
    root: Text,
    paths: Seq<Text>,
    i: nat,
    repair: bool,
    ours: OurHooks,
)
    requires
        did(w0, w, Seq::empty()),
        backup_from_run(w, root, paths, i, repair, ours).1 is Err,
    ensures
        hooks_refused(w0, backup_from_run(w, root, paths, i, repair, ours).0),
    decreases paths.len() - i,
{
    if i < paths.len() {
        let path = paths[i as int];
        let (w1, done) = backup_one_run(w, root, path, repair, ours);
        if done is Err {
            let w2 = w.is_file(path).0;
            let (w3, mode) = w2.metadata_mode(path);
            assert(did(w0, w2, Seq::empty()));
            if mode is Ok && file_name_of(path) is None {
                assert(did(w0, w3, seq![Step::Just(Call::Mode(path))]));
            } else {
                assert(did(w0, w1, seq![Step::Refused]));
            }
        } else {
            assert(did(w0, w1, Seq::empty()));
            lemma_backup_refused(w0, w1, root, paths, i + 1, repair, ours);
        }
    }
}

/// Installing the hooks fails only where a request does, or where a hook that the
/// user has is a file without a name.
pub proof fn hooks_are_installed_unless_refused(w: World, root: Text, repair: bool)
    ensures
        hooks_run(w, root, repair).1 is Ok || hooks_refused(w, hooks_run(w, root, repair).0),
{
    lemma_hooks_refused(w, w, root, repair);
}

proof fn lemma_hooks_refused(w0: World, w: World, root: Text, repair: bool)
    requires
        did(w0, w, Seq::empty()),
    ensures
        hooks_run(w, root, repair).1 is Ok || hooks_refused(w0, hooks_run(w, root, repair).0),
{
    broadcast use group_kept_install;

    let (w1, post_checkout) = dispatches_run(w, root, "post-checkout"@);
    assert(did(w0, w1, Seq::empty()));
    let (w2, post_commit) = dispatches_run(w1, root, "post-commit"@);
    assert(did(w0, w2, Seq::empty()));
    let ours = OurHooks { post_checkout, post_commit };
    let dir = path_join(path_join(root, ".git"@), "hooks"@);
    let (w3, there) = w2.path_exists(dir);
    assert(did(w0, w3, Seq::empty()));
    let (w4, paths) = w3.read_dir(dir);
    assert(did(w0, w4, Seq::empty()));
    let (w5, kept) = backup_run(w2, root, repair, ours);
    assert(did(w0, w5, Seq::empty()));
    if kept is Err {
        if paths is Ok {
            lemma_backup_refused(w0, w4, root, paths->Ok_0, 0, repair, ours);
        } else {
            assert(did(w0, w4, seq![Step::Refused]));
        }
    } else {
        let (w6, first) = ensure_hook_run(w5, root, "post-checkout"@, post_checkout, repair);
        assert(did(w0, w6, Seq::empty()));
        if first is Err {
            assert(did(w0, w6, seq![Step::Refused]));
        } else {
            let (w7, second) = ensure_hook_run(w6, root, "post-commit"@, post_commit, repair);
            if second is Err {
                assert(did(w0, w7, seq![Step::Refused]));
            }
        }
    }
}

// ─── Installing and cloning ──────────────────────────────────────────

/// Were settings of the agent harness read that our hook cannot be merged into?
pub open spec fn settings_refused(w0: World, w: World, env: EnvView, root: Text) -> bool {
    exists|content: Text| #[trigger]
        did(w0, w, seq![Step::Told(Call::Read(settings_file(env.agent, root)), content)]) && (
        json_parsed(content) is Err || settings_merged(env.agent, json_parsed(content)->Ok_0) is Err)
}

/// Was a configuration read that holds no UUID?
pub open spec fn config_refused(w0: World, w: World, root: Text) -> bool {
    exists|content: Text| #[trigger]
        did(
            w0,
            w,
            seq![
                Step::Told(
                    Call::Read(path_join(config_path(root), "subcontext.yaml"@)),
                    content,
                ),
            ],
        ) && forall|uuid: Text| !(#[trigger] holds(content, "project_uuid:"@, uuid))
}

/// Is there a reason for an installation to fail?
pub open spec fn installation_refused(w0: World, w: World, env: EnvView, root: Text) -> bool {
    ||| hooks_refused(w0, w)
    ||| settings_refused(w0, w, env, root)
    ||| config_refused(w0, w, root)
    ||| env.home is None && env.subcontext_path is None
}

proof fn lemma_configure_refused(
    w0: World,
    w: World,
    env: EnvView,
    root: Text,
    repair: bool,
    fresh: Text,
)
    requires
        did(w0, w, Seq::empty()),
    ensures
        ({
            let (after, uuid) = configure_run(w, env.agent, root, repair, fresh);
            uuid is Ok || installation_refused(w0, after, env, root)
        }),
{
    broadcast use {group_kept, group_kept_install};

    let c = Checkout::main_at(root);
    let (w1, hooks) = hooks_run(w, root, repair);
    lemma_hooks_refused(w0, w, root, repair);
    assert(did(w0, w1, Seq::empty()));
    if hooks is Ok {
        let (w2, synced) = sync_run(w1, c);
        lemma_sync(w0, w1, c);
        assert(did(w0, w2, Seq::empty()));
        if synced is Ok {
            let (w3, merged) = merge_run(w2, env.agent, root);
            lemma_settings(w0, w2, env.agent, root);
            assert(did(w0, w3, Seq::empty()));
            if merged is Ok {
                lemma_configured(w0, w3, config_path(root), SUBCONTEXT_KIND@, fresh);
            }
        }
    }
}

proof fn lemma_join_global_refused(w0: World, w: World, env: EnvView, uuid: Text)
    requires
        did(w0, w, Seq::empty()),
    ensures
        ({
            let (after, done) = join_global_run(w, env, uuid);
            done is Ok || did(w0, after, seq![Step::Refused]) || (env.home is None
                && env.subcontext_path is None)
        }),
{
    broadcast use group_kept_global;

    let (after, done) = join_global_run(w, env, uuid);
    let (w1, commit) = register_run(w, env, uuid, SUBCONTEXT_KIND@);
    assert(did(w0, w1, Seq::empty()));
    if done is Err && (env.home is Some || env.subcontext_path is Some) {
        assert(did(w0, after, seq![Step::Refused]));
    }
}

proof fn lemma_join_user_refused(w0: World, w: World, env: EnvView, uuid: Text)
    requires
        did(w0, w, Seq::empty()),
    ensures
        ({
            let (after, done) = join_user_run(w, env, uuid);
            done is Ok || did(w0, after, seq![Step::Refused]) || (env.home is None
                && env.subcontext_path is None)
        }),
{
    broadcast use group_kept_global;

    let (after, done) = join_user_run(w, env, uuid);
    if done is Err && (env.home is Some || env.subcontext_path is Some) {
        assert(did(w0, after, seq![Step::Refused]));
    }
}

proof fn lemma_from_hooks_refused(
    w0: World,
    w: World,
    env: EnvView,
    root: Text,
    repair: bool,
    fresh: Text,
)
    requires
        did(w0, w, Seq::empty()),
    ensures
        ({
            let (after, done) = from_hooks_run(w, env, root, repair, fresh);
            done is Ok || installation_refused(w0, after, env, root)
        }),
{
    broadcast use {group_kept_global, group_kept_install};

    let (w1, uuid) = configure_run(w, env.agent, root, repair, fresh);
    lemma_configure_refused(w0, w, env, root, repair, fresh);
    assert(did(w0, w1, Seq::empty()));
    if uuid is Ok {
        let (w2, committed) = commit_config_run(w1, root);
        assert(did(w0, w2, Seq::empty()));
        if committed is Ok {
            let (w3, joined) = join_global_run(w2, env, uuid->Ok_0);
            lemma_join_global_refused(w0, w2, env, uuid->Ok_0);
            assert(did(w0, w3, Seq::empty()));
            if joined is Ok {
                lemma_join_user_refused(w0, w3, env, uuid->Ok_0);
            }
        } else {
            assert(did(w0, w2, seq![Step::Refused]));
        }
    }
}

proof fn lemma_repo_refused(w0: World, w: World, root: Text, branch: Text)
    requires
        did(w0, w, Seq::empty()),
        ensure_repo_run(w, root, branch).1 is Err,
    ensures
        did(w0, ensure_repo_run(w, root, branch).0, seq![Step::Refused]),
{
}

/// Installing fails only where a request does, where a hook that the user has is
/// a file without a name, where our hook cannot be merged into the settings of the
/// agent harness, where the configuration holds no UUID, or where it is not known
/// where the system subcontext lies.
pub proof fn installing_succeeds_unless_refused(
    w: World,
    env: EnvView,
    root: Text,
    repair: bool,
    fresh: Text,
)
    ensures
        ({
            let (after, done) = install_run(w, env, root, repair, fresh);
            done is Ok || installation_refused(w, after, env, root)
        }),
{
    let (w1, branch) = current_branch_run(w, root);
    assert(did(w, w1, Seq::empty()));
    if branch is Ok {
        let (w2, ready) = ensure_repo_run(w1, root, branch->Ok_0);
        if ready is Ok {
            assert(did(w, w2, Seq::empty()));
            let (w3, alias) = alias_run(w2, root);
            assert(did(w, w3, Seq::empty()));
            if alias is Ok {
                lemma_from_hooks_refused(w, w3, env, root, repair, fresh);
            } else {
                assert(did(w, w3, seq![Step::Refused]));
            }
        } else {
            lemma_repo_refused(w, w1, root, branch->Ok_0);
        }
    } else {
        assert(did(w, w1, seq![Step::Refused]));
    }
}

/// Cloning fails only where there is a subcontext already, where a request fails,
/// or for a reason for which installing fails.
pub proof fn cloning_succeeds_unless_refused(
    w: World,
    env: EnvView,
    root: Text,
    url: Text,
    fresh: Text,
)
    ensures
        ({
            let (after, done) = clone_run(w, env, root, url, fresh);
            done is Ok || w.path_exists(subcontext_path(root)).1 || installation_refused(
                w,
                after,
                env,
                root,
            )
        }),
{
    broadcast use group_kept;

    let c = Checkout::main_at(root);
    let (w1, there) = w.path_exists(subcontext_path(root));
    assert(did(w, w1, Seq::empty()));
    if !there {
        let (w2, fetched) = fetch_run(w1, root, url);
        assert(did(w, w2, Seq::empty()));
        if fetched is Err {
            assert(did(w, w2, seq![Step::Refused]));
        } else {
            let (w3, overlaid) = attach_overlay_run(w2, root);
            assert(did(w, w3, Seq::empty()));
            if overlaid is Err {
                assert(did(w, w3, seq![Step::Refused]));
            } else {
                let (w4, state) = attach_state_run(w3, root);
                assert(did(w, w4, Seq::empty()));
                if state is Err {
                    assert(did(w, w4, seq![Step::Refused]));
                } else {
                    let (w5, applied) = apply_run(w4, c);
                    lemma_apply(w, w4, c);
                    assert(did(w, w5, Seq::empty()));
                    if applied is Ok {
                        lemma_from_hooks_refused(w, w5, env, root, false, fresh);
                    }
                }
            }
        }
    }
}

// ─── Uninstalling ────────────────────────────────────────────────────

/// Uninstalling fails only where a request does or where the settings of the
/// agent harness are no JSON.
pub proof fn uninstalling_succeeds_unless_refused(w: World, env: EnvView, root: Text)
    ensures
        ({
            let (after, done) = uninstall_run(w, env, root);
            done is Ok || did(w, after, seq![Step::Refused]) || exists|content: Text| #[trigger]
                did(w, after, seq![Step::Told(Call::Read(settings_file(env.agent, root)), content)])
                    && json_parsed(content) is Err
        }),
{
    broadcast use group_kept;

    let path = settings_file(env.agent, root);
    let (w1, there) = w.path_exists(subcontext_path(root));
    assert(did(w, w1, Seq::empty()));
    let w2 = unapplied(w1, Checkout::main_at(root));
    assert(did(w, w2, Seq::empty()));
    let (w3, first) = restore_hook_run(w2, root, "post-checkout"@);
    assert(did(w, w3, Seq::empty()));
    if there && first is Err {
        assert(did(w, w3, seq![Step::Refused]));
    } else if there {
        let (w4, second) = restore_hook_run(w3, root, "post-commit"@);
        assert(did(w, w4, Seq::empty()));
        if second is Err {
            assert(did(w, w4, seq![Step::Refused]));
        } else {
            let w5 = remove_alias_run(w4, root);
            assert(did(w, w5, Seq::empty()));
            let (w6, settings) = remove_settings_run(w5, env.agent, root);
            assert(did(w, w6, Seq::empty()));
            if settings is Err {
                let w7 = w5.path_exists(path).0;
                let (w8, content) = w7.read(path);
                assert(did(w, w7, Seq::empty()));
                if content is Ok && json_parsed(content->Ok_0) is Err {
                    assert(did(w, w8, seq![Step::Told(Call::Read(path), content->Ok_0)]));
                } else {
                    assert(did(w, w6, seq![Step::Refused]));
                }
            } else {
                let (w7, cleaned) = clean_run(w6, root);
                if cleaned is Err {
                    assert(did(w, w7, seq![Step::Refused]));
                }
            }
        }
    }
}

// ─── Boards ──────────────────────────────────────────────────────────

/// Making a board fails only where a request does.
pub proof fn board_is_made_unless_refused(w: World, base: Text, uuid: Text)
    ensures
        create_run(w, base, uuid).1 is Ok || did(
            w,
            create_run(w, base, uuid).0,
            seq![Step::Refused],
        ),
{
    let b = BoardView { base, uuid };
    let (w1, branch) = create_branch_run(w, b);
    assert(did(w, w1, Seq::empty()));
    if branch is Err {
        assert(did(w, w1, seq![Step::Refused]));
    } else {
        let (w2, worktree) = worktree_run(w1, b);
        assert(did(w, w2, Seq::empty()));
        if worktree is Err {
            assert(did(w, w2, seq![Step::Refused]));
        } else {
            let (w3, furnished) = furnish_run(w2, b);
            if furnished is Err {
                assert(did(w, w3, seq![Step::Refused]));
            }
        }
    }
}

// ─── Skills ──────────────────────────────────────────────────────────

proof fn lemma_skills_refused(
    w0: World,
    w: World,
    dir: Text,
    skills: Seq<(Text, Text)>,
    i: nat,
    installed: nat,
    skipped: nat,
)
    requires
        did(w0, w, Seq::empty()),
        install_from_run(w, dir, skills, i, installed, skipped).1 is Err,
    ensures
        did(
            w0,
            install_from_run(w, dir, skills, i, installed, skipped).0,
            seq![Step::Refused],
        ),
    decreases skills.len() - i,
{
    if i < skills.len() {
        let (w1, done) = install_one_run(w, dir, skills[i as int]);
        if done is Err {
            assert(did(w0, w1, seq![Step::Refused]));
        } else {
            assert(did(w0, w1, Seq::empty()));
            if done->Ok_0 {
                lemma_skills_refused(w0, w1, dir, skills, i + 1, installed + 1, skipped);
            } else {
                lemma_skills_refused(w0, w1, dir, skills, i + 1, installed, skipped + 1);
            }
        }
    }
}

/// Installing the skills fails only where a request does or where there is no
/// home directory.
pub proof fn skills_are_installed_unless_refused(
    w: World,
    env: EnvView,
    skills: Seq<(Text, Text)>,
)
    ensures
        ({
            let (after, done) = crate::skills::install_run(w, env, skills);
            done is Ok || did(w, after, seq![Step::Refused]) || home_of(env) is None
        }),
{
    if let Some(home) = home_of(env) {
        let dir = path_join(path_join(home, env.agent.dir()), "skills"@);
        let (w1, made) = w.create_dir_all(dir);
        if made is Ok {
            assert(did(w, w1, Seq::empty()));
            if install_from_run(w1, dir, skills, 0, 0, 0).1 is Err {
                lemma_skills_refused(w, w1, dir, skills, 0, 0, 0);
            }
        } else {
            assert(did(w, w1, seq![Step::Refused]));
        }
    }
}

} // verus!
