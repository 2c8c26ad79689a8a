//! What an installation puts into the host repo, and what an uninstallation takes
//! out of it.

use vstd::prelude::*;

use crate::agent::AgentView;
use crate::environment::EnvView;
use crate::git::{config_path, subcontext_path, Checkout};
use crate::install::{
    alias_run, any_invokes, backup_from_run, backup_one_run, backup_run, commit_config_run,
    configure_run, dispatcher, dispatches_run, ensure_hook_run, hooks_run, OurHooks,
};
use crate::json::{document_text, JsonView};
use crate::laws::global::{holds, value_is_on_its_line};
use crate::laws::install::{group_kept_install, lemma_kept_by_backup_from};
use crate::laws::overlay::{
    excludes_synced, group_kept, lemma_sync, lemma_unapply, overlay_withdrawn,
};
use crate::overlay::{clean_run, sync_run, unapply_run};
use crate::paths::{file_name_of, path_join};
use crate::project::{config_text, ensure_config_run, value_of, SUBCONTEXT_KIND};
use crate::settings::{merge_run, settings_merged, settings_unmerged};
use crate::text::{lines_of, occurs, Text};
use crate::trace::{did, git_call, group_did, lemma_did_before, Step};
use crate::uninstall::{
    detach_run, drop_repo_run, remove_alias_run, remove_settings_run, restore_hook_run, unapplied,
    uninstall_run,
};
use crate::world::{Call, World};

verus! {

broadcast use group_did;

// ─── Hooks ───────────────────────────────────────────────────────────

/// Where a hook of the host repo lies.
pub open spec fn hook_file(root: Text, name: Text) -> Text {
    path_join(path_join(path_join(root, ".git"@), "hooks"@), name)
}

/// Where the hooks that were there before are kept.
pub open spec fn kept_hook(root: Text, place: Text, name: Text) -> Text {
    path_join(path_join(path_join(config_path(root), "hooks"@), place), name)
}

/// Is the hook of the host repo one that dispatches to us: it was written so and
/// made executable, or it was found to be so and, without a repair, left?
pub open spec fn hook_ready(w0: World, w: World, root: Text, name: Text, repair: bool) -> bool {
    let path = hook_file(root, name);
    ||| did(
        w0,
        w,
        seq![Step::Wrote(path, dispatcher(name))].push(
            Step::Well(Call::SetMode { path, mode: 0o755 }),
        ),
    )
    ||| !repair && exists|content: Text| #[trigger]
        did(w0, w, seq![Step::Told(Call::Read(path), content)]) && any_invokes(
            lines_of(content),
        )
}

/// Was what lies at the path in the hooks directory kept, where it is an
/// executable hook of the user: a file that is no sample? A hook of ours is kept
/// as a backup, in a repair.
pub open spec fn hook_kept(
    w0: World,
    w: World,
    root: Text,
    path: Text,
    repair: bool,
    ours: OurHooks,
) -> bool {
    let name = file_name_of(path);
    let seen = seq![Step::Yes(Call::IsFile(path))];
    ||| did(w0, w, seq![Step::No(Call::IsFile(path))])
    ||| name is Some && ".sample"@.is_suffix_of(name->0)
    ||| exists|bits: u32|
        bits & 0o111 == 0 && #[trigger] did(
            w0,
            w,
            seen.push(Step::Bits(Call::Mode(path), bits)),
        )
    ||| name is Some && ours.has(name->0) && !repair
    ||| name is Some && ours.has(name->0) && did(
        w0,
        w,
        seen.push(Step::Well(Call::Copy { from: path, to: kept_hook(root, "backup"@, name->0) })),
    )
    ||| name is Some && did(
        w0,
        w,
        seen.push(Step::Well(Call::Copy { from: path, to: kept_hook(root, "old"@, name->0) })),
    )
}

proof fn lemma_hook_kept(
    w0: World,
    w: World,
    root: Text,
    path: Text,
    repair: bool,
    ours: OurHooks,
)
    requires
        did(w0, w, Seq::empty()),
        backup_one_run(w, root, path, repair, ours).1 is Ok,
    ensures
        hook_kept(w0, backup_one_run(w, root, path, repair, ours).0, root, path, repair, ours),
{
    let (w1, is_file) = w.is_file(path);
    let (w2, mode) = w1.metadata_mode(path);
    if is_file && mode is Ok {
        assert(did(
            w0,
            w2,
            seq![Step::Yes(Call::IsFile(path))].push(
                Step::Bits(Call::Mode(path), mode->Ok_0),
            ),
        ));
    }
}

proof fn lemma_still_kept(
    w0: World,
    w: World,
    after: World,
    root: Text,
    path: Text,
    repair: bool,
    ours: OurHooks,
)
    requires
        hook_kept(w0, w, root, path, repair, ours),
        did(w, after, Seq::empty()),
    ensures
        hook_kept(w0, after, root, path, repair, ours),
{
    let name = file_name_of(path);
    let seen = seq![Step::Yes(Call::IsFile(path))];
    let no = seq![Step::No(Call::IsFile(path))];
    let backup = seen.push(
        Step::Well(Call::Copy { from: path, to: kept_hook(root, "backup"@, name->0) }),
    );
    let old = seen.push(
        Step::Well(Call::Copy { from: path, to: kept_hook(root, "old"@, name->0) }),
    );
    if did(w0, w, no) {
        lemma_did_before(w0, w, after, no);
    }
    if did(w0, w, backup) {
        lemma_did_before(w0, w, after, backup);
    }
    if did(w0, w, old) {
        lemma_did_before(w0, w, after, old);
    }
    assert forall|bits: u32| #[trigger]
        did(w0, w, seen.push(Step::Bits(Call::Mode(path), bits))) implies did(
        w0,
        after,
        seen.push(Step::Bits(Call::Mode(path), bits)),
    ) by {
        lemma_did_before(w0, w, after, seen.push(Step::Bits(Call::Mode(path), bits)));
    }
}

proof fn lemma_hooks_kept(
    w0: World,
    w: World,
    root: Text,
    paths: Seq<Text>,
    i: nat,
    k: int,
    repair: bool,
    ours: OurHooks,
)
    requires
        did(w0, w, Seq::empty()),
        i <= k < paths.len(),
        backup_from_run(w, root, paths, i, repair, ours).1 is Ok,
    ensures
        hook_kept(
            w0,
            backup_from_run(w, root, paths, i, repair, ours).0,
            root,
            paths[k],
            repair,
            ours,
        ),
    decreases paths.len() - i,
{
    broadcast use group_kept_install;

    let (w1, done) = backup_one_run(w, root, paths[i as int], repair, ours);
    assert(did(w0, w1, Seq::empty()));
    if i < k {
        lemma_hooks_kept(w0, w1, root, paths, i + 1, k, repair, ours);
    } else {
        lemma_hook_kept(w0, w, root, paths[k], repair, ours);
        assert(did(w1, w1, Seq::empty()));
        let after = backup_from_run(w, root, paths, i, repair, ours).0;
        assert(after == backup_from_run(w1, root, paths, i + 1, repair, ours).0);
        lemma_still_kept(w0, w1, after, root, paths[k], repair, ours);
    }
}

/// Were the user's hooks kept before ours were put in their place?
pub open spec fn hooks_kept(w0: World, w: World, root: Text, repair: bool, ours: OurHooks) -> bool {
    let dir = path_join(path_join(root, ".git"@), "hooks"@);
    ||| did(w0, w, seq![Step::No(Call::Exists(dir))])
    ||| exists|paths: Seq<Text>| #[trigger]
        did(w0, w, seq![Step::Items(Call::ReadDir(dir), paths)]) && forall|k: int|
            0 <= k < paths.len() ==> hook_kept(w0, w, root, #[trigger] paths[k], repair, ours)
}

/// Does a hook that was read dispatch to us?
pub open spec fn read_as_ours(w0: World, w: World, root: Text, name: Text, ours: bool) -> bool {
    let path = hook_file(root, name);
    ||| !ours && did(w0, w, seq![Step::Ill(Call::Read(path))])
    ||| exists|content: Text| #[trigger]
        did(w0, w, seq![Step::Told(Call::Read(path), content)]) && ours == any_invokes(
            lines_of(content),
        )
}

/// Are the hooks installed: first the user's own are kept, and then both ours are
/// in place?
pub open spec fn hooks_installed(w0: World, w: World, root: Text, repair: bool) -> bool {
    exists|ours: OurHooks, between: World| #[trigger]
        hooks_kept(w0, between, root, repair, ours) && #[trigger] did(between, w, Seq::empty())
            && read_as_ours(w0, between, root, "post-checkout"@, ours.post_checkout)
            && read_as_ours(w0, between, root, "post-commit"@, ours.post_commit) && hook_ready(
            w0,
            w,
            root,
            "post-checkout"@,
            repair,
        ) && hook_ready(w0, w, root, "post-commit"@, repair)
}

/// Installing hooks keeps the executable hooks that the user has, and puts ours
/// in place: both dispatch to us afterwards, and a hook that dispatches already is
/// left as it is unless it is to be repaired.
pub proof fn hooks_are_installed(w: World, root: Text, repair: bool)
    requires
        hooks_run(w, root, repair).1 is Ok,
    ensures
        hooks_installed(w, hooks_run(w, root, repair).0, root, repair),
{
    lemma_hooks(w, w, root, repair);
}

proof fn lemma_ready(
    w0: World,
    w: World,
    root: Text,
    name: Text,
    ours: bool,
    repair: bool,
)
    requires
        did(w0, w, Seq::empty()),
        read_as_ours(w0, w, root, name, ours),
        ensure_hook_run(w, root, name, ours, repair).1 is Ok,
    ensures
        hook_ready(w0, ensure_hook_run(w, root, name, ours, repair).0, root, name, repair),
{
    let path = hook_file(root, name);
    let after = ensure_hook_run(w, root, name, ours, repair).0;
    if ours && !repair {
        let content = choose|content: Text| #[trigger]
            did(w0, w, seq![Step::Told(Call::Read(path), content)]) && ours == any_invokes(
                lines_of(content),
            );
        assert(did(w0, after, seq![Step::Told(Call::Read(path), content)]));
    }
}

proof fn lemma_still_read(
    w0: World,
    w: World,
    after: World,
    root: Text,
    name: Text,
    ours: bool,
)
    requires
        read_as_ours(w0, w, root, name, ours),
        did(w, after, Seq::empty()),
    ensures
        read_as_ours(w0, after, root, name, ours),
{
    let path = hook_file(root, name);
    if did(w0, w, seq![Step::Ill(Call::Read(path))]) {
        lemma_did_before(w0, w, after, seq![Step::Ill(Call::Read(path))]);
    }
    assert forall|content: Text| #[trigger]
        did(w0, w, seq![Step::Told(Call::Read(path), content)]) implies did(
        w0,
        after,
        seq![Step::Told(Call::Read(path), content)],
    ) by {
        lemma_did_before(w0, w, after, seq![Step::Told(Call::Read(path), content)]);
    }
}

proof fn lemma_still_ready(
    w0: World,
    w: World,
    after: World,
    root: Text,
    name: Text,
    repair: bool,
)
    requires
        hook_ready(w0, w, root, name, repair),
        did(w, after, Seq::empty()),
    ensures
        hook_ready(w0, after, root, name, repair),
{
    let path = hook_file(root, name);
    let written = seq![Step::Wrote(path, dispatcher(name))].push(
        Step::Well(Call::SetMode { path, mode: 0o755 }),
    );
    if did(w0, w, written) {
        lemma_did_before(w0, w, after, written);
    }
    assert forall|content: Text| #[trigger]
        did(w0, w, seq![Step::Told(Call::Read(path), content)]) implies did(
        w0,
        after,
        seq![Step::Told(Call::Read(path), content)],
    ) by {
        lemma_did_before(w0, w, after, seq![Step::Told(Call::Read(path), content)]);
    }
}

proof fn lemma_dispatches(w0: World, w: World, root: Text, name: Text)
    requires
        did(w0, w, Seq::empty()),
    ensures
        ({
            let (after, ours) = dispatches_run(w, root, name);
            read_as_ours(w0, after, root, name, ours) && did(w0, after, Seq::empty()) && did(
                w,
                after,
                Seq::empty(),
            )
        }),
{
    let path = hook_file(root, name);
    let (w1, content) = w.read(path);
    if content is Ok {
        assert(did(w0, w1, seq![Step::Told(Call::Read(path), content->Ok_0)]));
    } else {
        assert(did(w0, w1, seq![Step::Ill(Call::Read(path))]));
    }
}

proof fn lemma_kept_by_backup(
    w0: World,
    w: World,
    root: Text,
    repair: bool,
    ours: OurHooks,
    steps: Seq<Step>,
)
    requires
        did(w0, w, steps),
    ensures
        did(w0, backup_run(w, root, repair, ours).0, steps),
{
    let dir = path_join(path_join(root, ".git"@), "hooks"@);
    let (w1, there) = w.path_exists(dir);
    assert(did(w0, w1, steps));
    if there {
        let (w2, paths) = w1.read_dir(dir);
        assert(did(w0, w2, steps));
        if paths is Ok {
            lemma_kept_by_backup_from(w0, w2, root, paths->Ok_0, 0, repair, ours, steps);
        }
    }
}

/// The same, counted from an earlier world.
pub proof fn lemma_hooks(w0: World, w: World, root: Text, repair: bool)
    requires
        did(w0, w, Seq::empty()),
        hooks_run(w, root, repair).1 is Ok,
    ensures
        hooks_installed(w0, hooks_run(w, root, repair).0, root, repair),
{
    broadcast use group_kept_install;

    let after = hooks_run(w, root, repair).0;
    lemma_dispatches(w0, w, root, "post-checkout"@);
    let (w1, post_checkout) = dispatches_run(w, root, "post-checkout"@);
    lemma_dispatches(w0, w1, root, "post-commit"@);
    let (w2, post_commit) = dispatches_run(w1, root, "post-commit"@);
    lemma_still_read(w0, w1, w2, root, "post-checkout"@, post_checkout);
    let ours = OurHooks { post_checkout, post_commit };
    let (w3, kept) = backup_run(w2, root, repair, ours);
    let dir = path_join(path_join(root, ".git"@), "hooks"@);
    assert(did(w2, w2, Seq::empty()));
    lemma_kept_by_backup(w2, w2, root, repair, ours, Seq::empty());
    lemma_kept_by_backup(w0, w2, root, repair, ours, Seq::empty());
    lemma_still_read(w0, w2, w3, root, "post-checkout"@, post_checkout);
    lemma_still_read(w0, w2, w3, root, "post-commit"@, post_commit);
    let (b1, there) = w2.path_exists(dir);
    if there {
        let (b2, paths) = b1.read_dir(dir);
        assert(did(w0, b2, Seq::empty()));
        let paths = paths->Ok_0;
        assert(did(w0, b2, seq![Step::Items(Call::ReadDir(dir), paths)]));
        assert(did(w0, w3, seq![Step::Items(Call::ReadDir(dir), paths)]));
        assert forall|k: int| 0 <= k < paths.len() implies hook_kept(
            w0,
            w3,
            root,
            #[trigger] paths[k],
            repair,
            ours,
        ) by {
            lemma_hooks_kept(w0, b2, root, paths, 0, k, repair, ours);
        }
    }
    assert(hooks_kept(w0, w3, root, repair, ours));
    lemma_ready(w0, w3, root, "post-checkout"@, post_checkout, repair);
    let (w4, first) = ensure_hook_run(w3, root, "post-checkout"@, post_checkout, repair);
    assert(did(w3, w3, Seq::empty()));
    assert(did(w3, w4, Seq::empty()));
    assert(did(w0, w4, Seq::empty()));
    lemma_still_read(w0, w3, w4, root, "post-commit"@, post_commit);
    lemma_ready(w0, w4, root, "post-commit"@, post_commit, repair);
    assert(did(w4, w4, Seq::empty()));
    assert(did(w4, after, Seq::empty()));
    lemma_still_ready(w0, w4, after, root, "post-checkout"@, repair);
    lemma_did_before(w3, w4, after, Seq::empty());
}

// ─── Settings and configuration ──────────────────────────────────────

/// Where the settings of the agent harness lie.
pub open spec fn settings_file(agent: AgentView, root: Text) -> Text {
    path_join(path_join(root, agent.dir()), "settings.local.json"@)
}

/// Were these the settings that were there: nothing where there is no file?
pub open spec fn settings_read(
    w0: World,
    w: World,
    agent: AgentView,
    root: Text,
    settings: JsonView,
) -> bool {
    let path = settings_file(agent, root);
    ||| did(w0, w, seq![Step::No(Call::Exists(path))]) && settings == JsonView::Record(Seq::empty())
    ||| exists|content: Text| #[trigger]
        did(w0, w, seq![Step::Told(Call::Read(path), content)]) && crate::json::json_parsed(content)
            == Ok::<JsonView, Text>(settings)
}

/// The settings were written with our hook merged into them and, where there is
/// a config mount, copied there.
pub open spec fn settings_written(
    w0: World,
    w: World,
    agent: AgentView,
    root: Text,
    settings: JsonView,
    merged: JsonView,
) -> bool {
    let path = settings_file(agent, root);
    let written = seq![Step::Wrote(path, document_text(merged))];
    &&& settings_read(w0, w, agent, root, settings)
    &&& settings_merged(agent, settings) == Ok::<JsonView, Seq<Text>>(merged)
    &&& did(w0, w, written.push(Step::No(Call::Exists(config_path(root))))) || did(
        w0,
        w,
        written.push(
            Step::Well(
                Call::Copy {
                    from: path,
                    to: path_join(
                        path_join(path_join(config_path(root), "agents"@), agent.name),
                        "settings.local.json"@,
                    ),
                },
            ),
        ),
    )
}

/// Merging our hook into the settings of the agent harness writes the settings
/// that were there with the hook in them, and copies them to the config mount. It
/// fails only where a request does, or the settings are not of the form that they
/// should have.
pub proof fn settings_get_our_hook(w: World, agent: AgentView, root: Text)
    ensures
        ({
            let (after, done) = merge_run(w, agent, root);
            match done {
                Ok(_) => exists|settings: JsonView, merged: JsonView| #[trigger]
                    settings_written(w, after, agent, root, settings, merged),
                Err(_) => did(w, after, seq![Step::Refused]) || exists|content: Text| #[trigger]
                    did(
                        w,
                        after,
                        seq![Step::Told(Call::Read(settings_file(agent, root)), content)],
                    ) && (crate::json::json_parsed(content) is Err || settings_merged(
                        agent,
                        crate::json::json_parsed(content)->Ok_0,
                    ) is Err),
            }
        }),
{
    lemma_settings(w, w, agent, root);
}

/// The same, counted from an earlier world.
pub proof fn lemma_settings(w0: World, w: World, agent: AgentView, root: Text)
    requires
        did(w0, w, Seq::empty()),
    ensures
        ({
            let (after, done) = merge_run(w, agent, root);
            match done {
                Ok(_) => exists|settings: JsonView, merged: JsonView| #[trigger]
                    settings_written(w0, after, agent, root, settings, merged),
                Err(_) => did(w0, after, seq![Step::Refused]) || exists|content: Text| #[trigger]
                    did(
                        w0,
                        after,
                        seq![Step::Told(Call::Read(settings_file(agent, root)), content)],
                    ) && (crate::json::json_parsed(content) is Err || settings_merged(
                        agent,
                        crate::json::json_parsed(content)->Ok_0,
                    ) is Err),
            }
        }),
{
    let path = settings_file(agent, root);
    let (after, done) = merge_run(w, agent, root);
    let (w1, made) = w.create_dir_all(path_join(root, agent.dir()));
    if made is Ok {
        assert(did(w0, w1, Seq::empty()));
        let (w2, there) = w1.path_exists(path);
        assert(did(w0, w2, Seq::empty()));
        if there {
            let (w3, content) = w2.read(path);
            if content is Ok {
                let content = content->Ok_0;
                assert(did(w0, w3, Seq::empty()));
                assert(did(w0, w3, seq![Step::Told(Call::Read(path), content)]));
                let settings = crate::json::json_parsed(content);
                if settings is Ok && settings_merged(agent, settings->Ok_0) is Ok {
                    let merged = settings_merged(agent, settings->Ok_0)->Ok_0;
                    if done is Ok {
                        assert(did(w0, after, seq![Step::Told(Call::Read(path), content)]));
                        assert(settings_read(w0, after, agent, root, settings->Ok_0));
                        assert(settings_written(
                            w0,
                            after,
                            agent,
                            root,
                            settings->Ok_0,
                            merged,
                        ));
                    }
                } else {
                    assert(after == w3);
                }
            }
        } else {
            let settings = JsonView::Record(Seq::empty());
            lemma_empty_settings(agent);
            let merged = settings_merged(agent, settings)->Ok_0;
            if done is Ok {
                assert(did(w0, after, seq![Step::No(Call::Exists(path))]));
                assert(settings_read(w0, after, agent, root, settings));
                assert(settings_written(w0, after, agent, root, settings, merged));
            }
        }
    }
}

proof fn lemma_empty_settings(agent: AgentView)
    ensures
        settings_merged(agent, JsonView::Record(Seq::empty())) is Ok,
{

}

/// Has the project this UUID: the one that its configuration holds or, where it
/// had none, the new one, which was written with the kind?
pub open spec fn configured(
    w0: World,
    w: World,
    dir: Text,
    kind: Text,
    fresh: Text,
    uuid: Text,
) -> bool {
    let path = path_join(dir, "subcontext.yaml"@);
    ||| uuid == fresh && did(
        w0,
        w,
        seq![Step::No(Call::Exists(path))].push(Step::Wrote(path, config_text(fresh, kind))),
    )
    ||| exists|content: Text| #[trigger]
        did(
            w0,
            w,
            seq![Step::Yes(Call::Exists(path))].push(Step::Told(Call::Read(path), content)),
        ) && holds(content, "project_uuid:"@, uuid)
}

/// A project keeps the UUID that its configuration holds; one that has no
/// configuration gets one with the new UUID and its kind. That fails only where a
/// request does or the configuration holds no UUID.
pub proof fn project_has_its_uuid(w: World, dir: Text, kind: Text, fresh: Text)
    ensures
        ({
            let (after, uuid) = ensure_config_run(w, dir, kind, fresh);
            let path = path_join(dir, "subcontext.yaml"@);
            match uuid {
                Ok(uuid) => configured(w, after, dir, kind, fresh, uuid),
                Err(_) => did(w, after, seq![Step::Refused]) || exists|content: Text| #[trigger]
                    did(w, after, seq![Step::Told(Call::Read(path), content)]) && forall|
                        uuid: Text,
                    |
                        !(#[trigger] holds(content, "project_uuid:"@, uuid)),
            }
        }),
{
    lemma_configured(w, w, dir, kind, fresh);
}

/// The same, counted from an earlier world.
pub proof fn lemma_configured(w0: World, w: World, dir: Text, kind: Text, fresh: Text)
    requires
        did(w0, w, Seq::empty()),
    ensures
        ({
            let (after, uuid) = ensure_config_run(w, dir, kind, fresh);
            let path = path_join(dir, "subcontext.yaml"@);
            match uuid {
                Ok(uuid) => configured(w0, after, dir, kind, fresh, uuid),
                Err(_) => did(w0, after, seq![Step::Refused]) || exists|content: Text| #[trigger]
                    did(w0, after, seq![Step::Told(Call::Read(path), content)]) && forall|
                        uuid: Text,
                    |
                        !(#[trigger] holds(content, "project_uuid:"@, uuid)),
            }
        }),
{
    let path = path_join(dir, "subcontext.yaml"@);
    let (after, uuid) = ensure_config_run(w, dir, kind, fresh);
    let (w1, there) = w.path_exists(path);
    if there {
        let (w2, content) = w1.read(path);
        if content is Ok {
            let content = content->Ok_0;
            assert(did(w0, w2, seq![Step::Told(Call::Read(path), content)]));
            assert(did(
                w0,
                w2,
                seq![Step::Yes(Call::Exists(path))].push(Step::Told(Call::Read(path), content)),
            ));
            assert forall|u: Text| #[trigger] holds(content, "project_uuid:"@, u) <==> value_of(
                content,
                "project_uuid:"@,
            ) == Some(u) by {
                value_is_on_its_line(content, "project_uuid:"@, u);
            }
            if uuid is Ok {
                assert(holds(content, "project_uuid:"@, uuid->Ok_0));
            }
        }
    }
}

/// Everything in the directory was staged and, where git told of any change,
/// committed.
pub open spec fn all_committed(
    w0: World,
    w: World,
    dir: Text,
    message: Text,
    status: Text,
) -> bool {
    let steps = seq![Step::Well(git_call(seq!["add"@, "-A"@], dir))].push(
        Step::Told(git_call(seq!["status"@, "--porcelain"@], dir), status),
    );
    &&& did(w0, w, steps)
    &&& status.len() > 0 ==> did(
        w0,
        w,
        steps.push(Step::Well(git_call(seq!["commit"@, "-m"@, message], dir))),
    )
}

/// The configuration is committed on its branch where it is mounted.
pub proof fn configuration_is_committed(w: World, root: Text)
    ensures
        ({
            let (after, done) = commit_config_run(w, root);
            let dir = config_path(root);
            match done {
                Ok(_) => did(w, after, seq![Step::No(Call::Exists(dir))]) || exists|status: Text|
                    #[trigger]
                    all_committed(w, after, dir, "subcontext: update config"@, status),
                Err(_) => did(w, after, seq![Step::Refused]),
            }
        }),
{
    let dir = config_path(root);
    let (after, done) = commit_config_run(w, root);
    let (w1, there) = w.path_exists(dir);
    let (w2, added) = w1.git(seq!["add"@, "-A"@], dir);
    let (w3, status) = w2.git(seq!["status"@, "--porcelain"@], dir);
    if there && added is Ok && status is Ok && done is Ok {
        assert(all_committed(w, after, dir, "subcontext: update config"@, status->Ok_0));
    }
}

/// The alias `git subcontext` runs the program that installed it.
pub proof fn alias_runs_this_program(w: World, root: Text)
    ensures
        ({
            let (after, done) = alias_run(w, root);
            match done {
                Ok(_) => exists|exe: Text| #[trigger]
                    did(
                        w,
                        after,
                        seq![Step::Told(Call::CurrentExe, exe)].push(alias_set(root, exe)),
                    ),
                Err(_) => did(w, after, seq![Step::Refused]),
            }
        }),
{
    let (w1, exe) = w.current_exe();
    if alias_run(w, root).1 is Ok {
        assert(did(
            w,
            alias_run(w, root).0,
            seq![Step::Told(Call::CurrentExe, exe->Ok_0)].push(alias_set(root, exe->Ok_0)),
        ));
    }
}

/// The alias was set to a program.
pub open spec fn alias_set(root: Text, exe: Text) -> Step {
    Step::Well(git_call(seq!["config"@, "alias.subcontext"@, "!"@ + exe], root))
}

/// What an installation and a clone set up: the hooks, then the exclude file,
/// then the settings of the agent harness, then the configuration, which gives
/// the UUID.
pub proof fn installation_sets_up_the_repository(
    w: World,
    agent: AgentView,
    root: Text,
    repair: bool,
    fresh: Text,
)
    requires
        configure_run(w, agent, root, repair, fresh).1 is Ok,
    ensures
        ({
            let (after, uuid) = configure_run(w, agent, root, repair, fresh);
            exists|
                w1: World,
                w2: World,
                w3: World,
                settings: JsonView,
                merged: JsonView,
            | #[trigger]
                hooks_installed(w, w1, root, repair) && #[trigger] excludes_synced(
                    w1,
                    w2,
                    Checkout::main_at(root),
                ) && #[trigger] settings_written(w2, w3, agent, root, settings, merged)
                    && configured(
                    w3,
                    after,
                    config_path(root),
                    "project"@,
                    fresh,
                    uuid->Ok_0,
                )
        }),
{
    let c = Checkout::main_at(root);
    let (after, uuid) = configure_run(w, agent, root, repair, fresh);
    lemma_hooks(w, w, root, repair);
    let (w1, hooks) = hooks_run(w, root, repair);
    lemma_sync(w1, w1, c);
    let (w2, synced) = sync_run(w1, c);
    lemma_settings(w2, w2, agent, root);
    let (w3, merged) = merge_run(w2, agent, root);
    lemma_configured(w3, w3, config_path(root), SUBCONTEXT_KIND@, fresh);
    assert(hooks_installed(w, w1, root, repair));
    assert(excludes_synced(w1, w2, c));
    let (s, m) = choose|settings: JsonView, merged: JsonView| #[trigger]
        settings_written(w2, w3, agent, root, settings, merged);
    assert(settings_written(w2, w3, agent, root, s, m));
    assert(configured(w3, after, config_path(root), "project"@, fresh, uuid->Ok_0));
}

// ─── Uninstalling ────────────────────────────────────────────────────

/// Is the hook of ours gone: the user's own, where one was kept, is back in its
/// place and executable, or ours is removed? A hook that is not there, or that is
/// not ours, is left.
pub open spec fn hook_restored(w0: World, w: World, root: Text, name: Text) -> bool {
    let path = hook_file(root, name);
    let old = kept_hook(root, "old"@, name);
    ||| did(w0, w, seq![Step::No(Call::Exists(path))])
    ||| did(w0, w, seq![Step::Ill(Call::Read(path))])
    ||| exists|content: Text| #[trigger]
        did(w0, w, seq![Step::Told(Call::Read(path), content)]) && !occurs(
            content,
            "subcontext _hook "@ + name,
        )
    ||| did(
        w0,
        w,
        seq![Step::Yes(Call::Exists(old))].push(
            Step::Well(Call::Copy { from: old, to: path }),
        ).push(Step::Well(Call::SetMode { path, mode: 0o755 })),
    )
    ||| did(
        w0,
        w,
        seq![Step::No(Call::Exists(old))].push(Step::Well(Call::RemoveFile(path))),
    )
}

/// Uninstalling a hook of ours brings the user's own hook back where one was
/// kept, and removes ours where none was. It fails only where a request does.
pub proof fn uninstalling_restores_the_hook(w: World, root: Text, name: Text)
    ensures
        ({
            let (after, done) = restore_hook_run(w, root, name);
            match done {
                Ok(_) => hook_restored(w, after, root, name),
                Err(_) => did(w, after, seq![Step::Refused]),
            }
        }),
{
    lemma_restored(w, w, root, name);
}

proof fn lemma_restored(w0: World, w: World, root: Text, name: Text)
    requires
        did(w0, w, Seq::empty()),
    ensures
        ({
            let (after, done) = restore_hook_run(w, root, name);
            match done {
                Ok(_) => hook_restored(w0, after, root, name),
                Err(_) => did(w0, after, seq![Step::Refused]),
            }
        }),
{
    let path = hook_file(root, name);
    let (w1, there) = w.path_exists(path);
    let (w2, content) = w1.read(path);
    if there && content is Ok {
        let content = content->Ok_0;
        assert(did(w0, w2, seq![Step::Told(Call::Read(path), content)]));
        if !crate::uninstall::is_ours(content, name) {
            let after = restore_hook_run(w, root, name).0;
            assert(did(w0, after, seq![Step::Told(Call::Read(path), content)]));
        }
    }
}

/// Uninstalling removes the alias, whether it is there or not.
pub proof fn uninstalling_unsets_the_alias(w: World, root: Text)
    ensures
        did(
            w,
            remove_alias_run(w, root),
            seq![
                Step::Just(git_call(seq!["config"@, "--unset"@, "alias.subcontext"@], root)),
            ],
        ),
{
}

/// Uninstalling writes the settings of the agent harness without our hook where
/// it is in them.
pub proof fn uninstalling_takes_our_hook_out_of_the_settings(
    w: World,
    agent: AgentView,
    root: Text,
)
    ensures
        ({
            let (after, done) = remove_settings_run(w, agent, root);
            let path = settings_file(agent, root);
            match done {
                Ok(_) => did(w, after, seq![Step::No(Call::Exists(path))]) || exists|
                    content: Text,
                    settings: JsonView,
                | #[trigger]
                    read_settings(w, after, path, content, settings) && match settings_unmerged(
                        agent,
                        settings,
                    ) {
                        Some(rest) => did(
                            w,
                            after,
                            seq![Step::Wrote(path, document_text(rest))],
                        ),
                        None => true,
                    },
                Err(_) => did(w, after, seq![Step::Refused]) || exists|content: Text| #[trigger]
                    did(w, after, seq![Step::Told(Call::Read(path), content)])
                        && crate::json::json_parsed(content) is Err,
            }
        }),
{
    let (after, done) = remove_settings_run(w, agent, root);
    let path = settings_file(agent, root);
    let (w1, there) = w.path_exists(path);
    let (w2, content) = w1.read(path);
    if there && content is Ok {
        let content = content->Ok_0;
        assert(did(w, w2, seq![Step::Told(Call::Read(path), content)]));
        if crate::json::json_parsed(content) is Ok {
            let settings = crate::json::json_parsed(content)->Ok_0;
            if done is Ok {
                assert(did(w, after, seq![Step::Told(Call::Read(path), content)]));
                assert(read_settings(w, after, path, content, settings));
            }
        } else {
            assert(after == w2);
        }
    }
}

/// Were these settings read from the file?
pub open spec fn read_settings(
    w0: World,
    w: World,
    path: Text,
    content: Text,
    settings: JsonView,
) -> bool {
    did(w0, w, seq![Step::Told(Call::Read(path), content)]) && crate::json::json_parsed(content)
        == Ok::<JsonView, Text>(settings)
}

/// Uninstalling a subcontext that is there takes the overlay out of the checkout,
/// unless that fails, restores both hooks, unsets the alias, takes our hook out
/// of the settings and our sections out of the exclude file, and only then
/// removes the subcontext's directory.
pub proof fn uninstalling_leaves_the_repository_as_it_was(w: World, env: EnvView, root: Text)
    requires
        w.path_exists(subcontext_path(root)).1,
        uninstall_run(w, env, root).1 is Ok,
    ensures
        ({
            let after = uninstall_run(w, env, root).0;
            let w1 = w.path_exists(subcontext_path(root)).0;
            exists|w2: World, w3: World, w4: World, w5: World, w6: World| #[trigger]
                hook_restored(w2, w3, root, "post-checkout"@) && #[trigger] hook_restored(
                    w3,
                    w4,
                    root,
                    "post-commit"@,
                ) && (overlay_withdrawn(w1, w2, Checkout::main_at(root)) || did(
                    w1,
                    w2,
                    seq![Step::Refused],
                )) && w5 == remove_settings_run(remove_alias_run(w4, root), env.agent, root).0
                    && #[trigger] remove_settings_run(
                    remove_alias_run(w4, root),
                    env.agent,
                    root,
                ).1 is Ok && #[trigger] clean_run(w5, root).1 is Ok && w6 == clean_run(w5, root).0
                    && #[trigger] did(
                    w6,
                    after,
                    seq![Step::Just(Call::RemoveDirAll(subcontext_path(root)))],
                )
        }),
{
    broadcast use group_kept;

    let c = Checkout::main_at(root);
    let after = uninstall_run(w, env, root).0;
    let w1 = w.path_exists(subcontext_path(root)).0;
    lemma_unapply(w1, w1, c);
    let w2 = unapplied(w1, c);
    let (u, done) = unapply_run(w1, c);
    if done is Err {
        assert(did(w1, w2, seq![Step::Refused]));
    }
    lemma_restored(w2, w2, root, "post-checkout"@);
    let w3 = restore_hook_run(w2, root, "post-checkout"@).0;
    lemma_restored(w3, w3, root, "post-commit"@);
    let w4 = restore_hook_run(w3, root, "post-commit"@).0;
    let w5 = remove_settings_run(remove_alias_run(w4, root), env.agent, root).0;
    let w6 = clean_run(w5, root).0;
    let w7 = drop_repo_run(w6, root);
    assert(did(w6, w7, seq![Step::Just(Call::RemoveDirAll(subcontext_path(root)))]));
    assert(hook_restored(w2, w3, root, "post-checkout"@));
    assert(hook_restored(w3, w4, root, "post-commit"@));
    assert(remove_settings_run(remove_alias_run(w4, root), env.agent, root).1 is Ok);
    assert(clean_run(w5, root).1 is Ok);
    assert(did(w6, after, seq![Step::Just(Call::RemoveDirAll(subcontext_path(root)))]));
}

// ─── What a hook and an entry hold ───────────────────────────────────

/// A hook of ours hands its name and all its arguments to `git subcontext`, in a
/// shell script.
pub proof fn dispatcher_hands_on_its_arguments(name: Text)
    ensures
        "#!/bin/sh\n"@.is_prefix_of(dispatcher(name)),
        (("exec git subcontext _hook "@ + name) + " \"$@\"\n"@).is_suffix_of(dispatcher(name)),
{
    reveal_strlit("#!/bin/sh\n");
    reveal_strlit("#!/bin/sh\n# Installed by subcontext. Dispatches to `git subcontext _hook ");
    reveal_strlit("exec git subcontext _hook ");
    reveal_strlit(" \"$@\"\n");
    reveal_strlit(
        "`.\n# Your original hook (if any) is backed up and called automatically.\nexec git subcontext _hook ",
    );
    let text = dispatcher(name);
    let first = "#!/bin/sh\n# Installed by subcontext. Dispatches to `git subcontext _hook "@;
    let second =
        "`.\n# Your original hook (if any) is backed up and called automatically.\nexec git subcontext _hook "@;
    let exec = "exec git subcontext _hook "@;
    let last = exec + name + " \"$@\"\n"@;
    assert(first.subrange(0, 10) =~= "#!/bin/sh\n"@);
    assert(text.subrange(0, 10) =~= "#!/bin/sh\n"@);
    assert(second.subrange(second.len() - exec.len(), second.len() as int) =~= exec);
    assert(text.subrange(text.len() - last.len(), text.len() as int) =~= last);
}

/// What is merged into settings that have no entry of ours is one that runs
/// `git subcontext startup` with the flag of the agent harness.
pub proof fn merged_entry_runs_startup(agent: AgentView, settings: JsonView)
    requires
        settings_merged(agent, settings) is Ok,
        !crate::settings::has_ours(agent, crate::settings::sessions(settings)),
    ensures
        crate::settings::sessions(settings_merged(agent, settings)->Ok_0)
            == crate::settings::sessions(settings).push(
            JsonView::Record(
                seq![
                    (
                        "hooks"@,
                        JsonView::List(
                            seq![
                                JsonView::Record(
                                    seq![
                                        ("type"@, JsonView::Text("command"@)),
                                        (
                                            "command"@,
                                            JsonView::Text(
                                                "git subcontext startup "@ + ("--"@ + agent.name
                                                    + "-code"@),
                                            ),
                                        ),
                                    ],
                                ),
                            ],
                        ),
                    ),
                ],
            ),
        ),
{
    crate::settings::merge_adds_only_our_hook(agent, settings, "hooks"@);
}

} // verus!
