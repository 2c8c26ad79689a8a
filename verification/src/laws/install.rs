//! What installing and cloning do.

use vstd::prelude::*;

use crate::agent::AgentView;
use crate::clone::{attach_overlay_run, attach_state_run, clone_run, fetch_run};
use crate::environment::EnvView;
use crate::git::{
    config_path, current_branch_run, overlay_branch_of, repo_path, state_path, subcontext_path,
    work_path, Checkout,
};
use crate::install::{
    alias_run, backup_from_run, backup_one_run, backup_run, commit_config_run, configure_run,
    dispatches_run, ensure_hook_run, ensure_repo_run, from_hooks_run, hooks_run, init_config_run,
    init_repo_run, install_run, join_global_run, join_user_run, summary_run, OurHooks,
};
use crate::laws::global::group_kept_global;
use crate::laws::overlay::{
    branch_created, group_kept, lemma_apply, lemma_branch_created, overlay_applied,
};
use crate::overlay::{apply_run, branch_exists_run, create_branch_run};
use crate::settings::merge_run;
use crate::text::Text;
use crate::trace::{bare_call, did, git_call, group_did, lemma_did_before, Step};
use crate::world::{Call, StoreCall, World};

verus! {

broadcast use group_did;

// ─── What was done before an operation stays done ────────────────────

pub broadcast proof fn lemma_kept_by_backup_from(
    w0: World,
    w: World,
    root: Text,
    paths: Seq<Text>,
    i: nat,
    repair: bool,
    ours: OurHooks,
    steps: Seq<Step>,
)
    requires
        did(w0, w, steps),
    ensures
        #[trigger] did(w0, backup_from_run(w, root, paths, i, repair, ours).0, steps),
    decreases paths.len() - i,
{
    if i < paths.len() {
        let (w1, done) = backup_one_run(w, root, paths[i as int], repair, ours);
        assert(did(w0, w1, steps));
        if done is Ok {
            lemma_kept_by_backup_from(w0, w1, root, paths, i + 1, repair, ours, steps);
        }
    }
}

pub broadcast proof fn lemma_kept_by_hooks(
    w0: World,
    w: World,
    root: Text,
    repair: bool,
    steps: Seq<Step>,
)
    requires
        did(w0, w, steps),
    ensures
        #[trigger] did(w0, hooks_run(w, root, repair).0, steps),
{
    broadcast use lemma_kept_by_backup_from;

    let (w1, post_checkout) = dispatches_run(w, root, "post-checkout"@);
    let (w2, post_commit) = dispatches_run(w1, root, "post-commit"@);
    assert(did(w0, w2, steps));
    let (w3, kept) = backup_run(w2, root, repair, (OurHooks { post_checkout, post_commit }));
    assert(did(w0, w3, steps));
    let w4 = ensure_hook_run(w3, root, "post-checkout"@, post_checkout, repair).0;
    assert(did(w0, w4, steps));
    let w5 = ensure_hook_run(w4, root, "post-commit"@, post_commit, repair).0;
    assert(did(w0, w5, steps));
}

pub broadcast proof fn lemma_kept_by_merge(
    w0: World,
    w: World,
    agent: AgentView,
    root: Text,
    steps: Seq<Step>,
)
    requires
        did(w0, w, steps),
    ensures
        #[trigger] did(w0, merge_run(w, agent, root).0, steps),
{
}

pub broadcast proof fn lemma_kept_by_configure(
    w0: World,
    w: World,
    agent: AgentView,
    root: Text,
    repair: bool,
    fresh: Text,
    steps: Seq<Step>,
)
    requires
        did(w0, w, steps),
    ensures
        #[trigger] did(w0, configure_run(w, agent, root, repair, fresh).0, steps),
{
    broadcast use {group_kept, group_kept_global, lemma_kept_by_hooks, lemma_kept_by_merge};

}

pub broadcast proof fn lemma_kept_by_join_global(
    w0: World,
    w: World,
    env: EnvView,
    uuid: Text,
    steps: Seq<Step>,
)
    requires
        did(w0, w, steps),
    ensures
        #[trigger] did(w0, join_global_run(w, env, uuid).0, steps),
{
    broadcast use group_kept_global;

}

pub broadcast proof fn lemma_kept_by_join_user(
    w0: World,
    w: World,
    env: EnvView,
    uuid: Text,
    steps: Seq<Step>,
)
    requires
        did(w0, w, steps),
    ensures
        #[trigger] did(w0, join_user_run(w, env, uuid).0, steps),
{
    broadcast use group_kept_global;

}

pub broadcast proof fn lemma_kept_by_from_hooks(
    w0: World,
    w: World,
    env: EnvView,
    root: Text,
    repair: bool,
    fresh: Text,
    steps: Seq<Step>,
)
    requires
        did(w0, w, steps),
    ensures
        #[trigger] did(w0, from_hooks_run(w, env, root, repair, fresh).0, steps),
{
    broadcast use {
        group_kept_global,
        lemma_kept_by_configure,
        lemma_kept_by_join_global,
        lemma_kept_by_join_user,
    };

}

pub broadcast group group_kept_install {
    lemma_kept_by_backup_from,
    lemma_kept_by_hooks,
    lemma_kept_by_merge,
    lemma_kept_by_configure,
    lemma_kept_by_join_global,
    lemma_kept_by_join_user,
    lemma_kept_by_from_hooks,
}

// ─── The context repo ────────────────────────────────────────────────

/// The bare repo was made, and its config branch, on an empty tree, checked out
/// beside it.
pub open spec fn config_made(root: Text, tree: Text, commit: Text) -> Seq<Step> {
    let repo = repo_path(root);
    seq![Step::Well(git_call(seq!["init"@, "--bare"@, repo], root))].push(
        Step::BareTold(
            seq!["hash-object"@, "-t"@, "tree"@, "/dev/null"@],
            repo,
            root,
            tree,
        ),
    ).push(
        Step::BareTold(
            seq!["commit-tree"@, tree, "-m"@, "init config branch"@],
            repo,
            root,
            commit,
        ),
    ).push(Step::BareWell(seq!["update-ref"@, "refs/heads/config"@, commit], repo, root)).push(
        Step::BareWell(seq!["worktree"@, "add"@, config_path(root), "config"@], repo, root),
    )
}

/// The overlay branch was created on an empty tree.
pub open spec fn overlay_made(root: Text, branch: Text, tree: Text, commit: Text) -> Seq<Step> {
    let repo = repo_path(root);
    seq![
        Step::BareTold(
            seq!["hash-object"@, "-t"@, "tree"@, "/dev/null"@],
            repo,
            root,
            tree,
        ),
    ].push(
        Step::BareTold(
            seq!["commit-tree"@, tree, "-m"@, "init "@ + branch],
            repo,
            root,
            commit,
        ),
    ).push(
        Step::BareWell(seq!["update-ref"@, "refs/heads/"@ + branch, commit], repo, root),
    )
}

/// The overlay branch was checked out in the work directory of the main
/// checkout.
pub open spec fn work_added(root: Text, branch: Text) -> Step {
    Step::BareWell(
        seq!["worktree"@, "add"@, work_path(root), branch],
        repo_path(root),
        root,
    )
}

/// Was the context repo of the repository made: with a config branch and an
/// overlay branch of its own, the overlay branch checked out in the work
/// directory once it is there, and the state after that?
pub open spec fn repo_made(w0: World, w: World, root: Text, branch: Text) -> bool {
    &&& exists|tree: Text, commit: Text| #[trigger] did(w0, w, config_made(root, tree, commit))
    &&& exists|tree: Text, commit: Text| #[trigger]
        did(
            w0,
            w,
            overlay_made(root, branch, tree, commit).push(work_added(root, branch)).push(
                Step::Well(Call::Store(StoreCall::InitLocalState { root })),
            ),
        )
}

proof fn lemma_init_repo(w0: World, w: World, root: Text, host: Text)
    requires
        did(w0, w, Seq::empty()),
    ensures
        ({
            let (after, done) = init_repo_run(w, root, host);
            match done {
                Ok(_) => repo_made(w0, after, root, overlay_branch_of(host)),
                Err(_) => did(w0, after, seq![Step::Refused]),
            }
        }),
{
    let (after, done) = init_repo_run(w, root, host);
    let branch = overlay_branch_of(host);
    let repo = repo_path(root);
    let (w1, made) = w.create_dir_all(subcontext_path(root));
    let (w2, inited) = w1.git(seq!["init"@, "--bare"@, repo], root);
    if made is Ok && inited is Ok {
        assert(did(w0, w2, Seq::empty()));
        let (w3, config) = init_config_run(w2, root);
        let (t, tree) = w2.subcontext_git(
            seq!["hash-object"@, "-t"@, "tree"@, "/dev/null"@],
            root,
        );
        let (c, commit) = t.subcontext_git(
            seq!["commit-tree"@, tree->Ok_0, "-m"@, "init config branch"@],
            root,
        );
        if config is Ok {
            assert(did(w0, w3, config_made(root, tree->Ok_0, commit->Ok_0)));
            assert(did(w0, w3, Seq::empty()));
            let (w4, created) = create_branch_run(w3, root, branch);
            lemma_branch_created(w0, w3, root, branch);
            if created is Ok {
                let (t2, c2) = choose|t: Text, c: Text| #[trigger]
                    branch_created(w0, w4, root, branch, t, c);
                assert(did(w0, w4, overlay_made(root, branch, t2, c2)));
                assert(did(w0, w4, config_made(root, tree->Ok_0, commit->Ok_0)));
                assert(did(w0, w4, Seq::empty()));
                if done is Ok {
                    assert(did(w0, after, config_made(root, tree->Ok_0, commit->Ok_0)));
                    assert(did(
                        w0,
                        after,
                        overlay_made(root, branch, t2, c2).push(work_added(root, branch)).push(
                            Step::Well(Call::Store(StoreCall::InitLocalState { root })),
                        ),
                    ));
                }
            }
        } else {
            assert(did(w0, w3, seq![Step::Refused]));
        }
    }
}

/// The host told the name of the branch that it is on.
pub open spec fn host_branch_told(root: Text, name: Text) -> Seq<Step> {
    seq![Step::Told(git_call(seq!["symbolic-ref"@, "--short"@, "HEAD"@], root), name)]
}

/// Installing in a repository without a subcontext makes the context repo: its
/// work directory is checked out on the overlay branch of the branch that the
/// host is on, which was created before that. Where there is a subcontext, it is
/// left as it is.
pub proof fn installing_makes_the_context_repo(
    w: World,
    env: EnvView,
    root: Text,
    repair: bool,
    fresh: Text,
)
    requires
        install_run(w, env, root, repair, fresh).1 is Ok,
    ensures
        ({
            let after = install_run(w, env, root, repair, fresh).0;
            exists|name: Text| #[trigger]
                did(w, after, host_branch_told(root, name)) && (did(
                    w,
                    after,
                    seq![Step::Yes(Call::Exists(subcontext_path(root)))],
                ) || (did(w, after, seq![Step::No(Call::Exists(subcontext_path(root)))])
                    && repo_made(w, after, root, overlay_branch_of(name))))
        }),
{
    broadcast use group_kept_install;

    let after = install_run(w, env, root, repair, fresh).0;
    let (w1, name) = current_branch_run(w, root);
    let name = name->Ok_0;
    let told = host_branch_told(root, name);
    assert(did(w, w1, told));
    let (w2, there) = w1.path_exists(subcontext_path(root));
    let (w3, ready) = ensure_repo_run(w1, root, name);
    let branch = overlay_branch_of(name);
    lemma_kept_by_ensure_repo(w, w1, root, name, told);
    let (w4, alias) = alias_run(w3, root);
    let (w5, done) = from_hooks_run(w4, env, root, repair, fresh);
    assert(did(w, w4, told));
    assert(did(w, w5, told));
    assert(did(w, after, told));
    if there {
        let yes = seq![Step::Yes(Call::Exists(subcontext_path(root)))];
        assert(did(w, w3, yes));
        assert(did(w, w4, yes));
        assert(did(w, w5, yes));
        assert(did(w, after, yes));
    } else {
        let no = seq![Step::No(Call::Exists(subcontext_path(root)))];
        let noted = w2.note("[subcontext] Initializing context repo..."@);
        assert(did(w, noted, no));
        assert(did(w, noted, Seq::empty()));
        lemma_init_repo(w, noted, root, name);
        lemma_kept_by_init(w, noted, root, name, no);
        assert(did(w, w4, no));
        assert(did(w, w5, no));
        assert(did(w, after, no));
        assert(did(w3, w3, Seq::empty()));
        assert(did(w3, w4, Seq::empty()));
        assert(did(w3, w5, Seq::empty()));
        assert(did(w3, after, Seq::empty()));
        lemma_still_made(w, w3, after, root, branch);
    }
}

proof fn lemma_kept_by_init(w0: World, w: World, root: Text, host: Text, steps: Seq<Step>)
    requires
        did(w0, w, steps),
    ensures
        did(w0, init_repo_run(w, root, host).0, steps),
{
    let w1 = w.create_dir_all(subcontext_path(root)).0;
    let w2 = w1.git(seq!["init"@, "--bare"@, repo_path(root)], root).0;
    let w3 = init_config_run(w2, root).0;
    let w4 = create_branch_run(w3, root, overlay_branch_of(host)).0;
    assert(did(w0, w3, steps));
    assert(did(w0, w4, steps));
}

proof fn lemma_kept_by_ensure_repo(w0: World, w: World, root: Text, host: Text, steps: Seq<Step>)
    requires
        did(w0, w, steps),
    ensures
        did(w0, ensure_repo_run(w, root, host).0, steps),
{
    let w1 = w.path_exists(subcontext_path(root)).0;
    let w2 = w1.note("[subcontext] Initializing context repo..."@);
    assert(did(w0, w2, steps));
    lemma_kept_by_init(w0, w2, root, host, steps);
}

proof fn lemma_still_made(w0: World, w: World, after: World, root: Text, branch: Text)
    requires
        repo_made(w0, w, root, branch),
        did(w, after, Seq::empty()),
    ensures
        repo_made(w0, after, root, branch),
{
    let (t1, c1) = choose|tree: Text, commit: Text| #[trigger]
        did(w0, w, config_made(root, tree, commit));
    lemma_did_before(w0, w, after, config_made(root, t1, c1));
    let (t2, c2) = choose|tree: Text, commit: Text| #[trigger]
        did(
            w0,
            w,
            overlay_made(root, branch, tree, commit).push(work_added(root, branch)).push(
                Step::Well(Call::Store(StoreCall::InitLocalState { root })),
            ),
        );
    lemma_did_before(
        w0,
        w,
        after,
        overlay_made(root, branch, t2, c2).push(work_added(root, branch)).push(
            Step::Well(Call::Store(StoreCall::InitLocalState { root })),
        ),
    );
}

// ─── Cloning ─────────────────────────────────────────────────────────

/// The context repo was cloned from the URL, and its config branch checked out.
pub open spec fn context_cloned(root: Text, url: Text) -> Seq<Step> {
    seq![Step::No(Call::Exists(subcontext_path(root)))].push(
        Step::Well(git_call(seq!["clone"@, "--bare"@, url, repo_path(root)], root)),
    ).push(
        Step::BareWell(
            seq!["worktree"@, "add"@, config_path(root), "config"@],
            repo_path(root),
            root,
        ),
    )
}

/// The same, and then the overlay branch of the branch that the host is on was
/// checked out in the work directory.
pub open spec fn overlay_attached(root: Text, url: Text, name: Text) -> Seq<Step> {
    context_cloned(root, url).push(
        Step::Told(git_call(seq!["symbolic-ref"@, "--short"@, "HEAD"@], root), name),
    ).push(work_added(root, overlay_branch_of(name)))
}

proof fn lemma_kept_by_attach(w0: World, w: World, root: Text, steps: Seq<Step>)
    requires
        did(w0, w, steps),
    ensures
        did(w0, attach_overlay_run(w, root).0, steps),
        did(w0, attach_state_run(w, root).0, steps),
{
    let (w1, name) = current_branch_run(w, root);
    assert(did(w0, w1, steps));
    if name is Ok {
        let branch = overlay_branch_of(name->Ok_0);
        let w2 = branch_exists_run(w1, root, branch).0;
        assert(did(w0, w2, steps));
        let w3 = create_branch_run(w2, root, branch).0;
        assert(did(w0, w3, steps));
    }
}

/// Cloning a context repo lays its overlay over the checkout: the overlay branch
/// of the branch that the host is on is checked out in the work directory, and
/// after that every file that the work directory lists is copied to the same
/// path in the checkout.
pub proof fn cloning_lays_the_overlay(w: World, env: EnvView, root: Text, url: Text, fresh: Text)
    requires
        clone_run(w, env, root, url, fresh).1 is Ok,
    ensures
        ({
            let after = clone_run(w, env, root, url, fresh).0;
            exists|name: Text, ready: World, applied: World| #[trigger]
                did(w, ready, overlay_attached(root, url, name)) && #[trigger] overlay_applied(
                    ready,
                    applied,
                    Checkout::main_at(root),
                ) && did(applied, after, Seq::empty())
        }),
{
    let after = clone_run(w, env, root, url, fresh).0;
    let c = Checkout::main_at(root);
    let w1 = w.path_exists(subcontext_path(root)).0;
    let (w2, fetched) = fetch_run(w1, root, url);
    lemma_fetched(w, root, url);
    let (w3, attached) = attach_overlay_run(w2, root);
    let name = lemma_attached(w, w2, root, url);
    lemma_kept_by_attach(w, w3, root, overlay_attached(root, url, name));
    let (w4, state) = attach_state_run(w3, root);
    let (w5, applied) = apply_run(w4, c);
    lemma_apply(w4, w4, c);
    let (w6, done) = from_hooks_run(w5, env, root, false, fresh);
    lemma_kept_by_from_hooks(w5, w5, env, root, false, fresh, Seq::empty());
    assert(after == w6.note("[subcontext] Clone complete."@));
    assert(did(w5, after, Seq::empty()));
    assert(overlay_applied(w4, w5, c));
}

proof fn lemma_fetched(w: World, root: Text, url: Text)
    ensures
        ({
            let (w1, there) = w.path_exists(subcontext_path(root));
            let (after, fetched) = fetch_run(w1, root, url);
            !there && fetched is Ok ==> did(w, after, context_cloned(root, url))
        }),
{
}

proof fn lemma_attached(w0: World, w: World, root: Text, url: Text) -> (name: Text)
    requires
        did(w0, w, context_cloned(root, url)),
    ensures
        attach_overlay_run(w, root).1 is Ok ==> did(
            w0,
            attach_overlay_run(w, root).0,
            overlay_attached(root, url, name),
        ),
{
    let (w1, name) = current_branch_run(w, root);
    let name = name->Ok_0;
    let branch = overlay_branch_of(name);
    if attach_overlay_run(w, root).1 is Ok {
        let named = context_cloned(root, url).push(
            Step::Told(git_call(seq!["symbolic-ref"@, "--short"@, "HEAD"@], root), name),
        );
        assert(did(w0, w1, named));
        let w2 = branch_exists_run(w1, root, branch).0;
        assert(did(w0, w2, named));
        let w3 = create_branch_run(w2, root, branch).0;
        assert(did(w0, w3, named));
    }
    name
}

// ─── The steps of an installation ────────────────────────────────────

/// What an installation and a clone end with: the repository is set up, its
/// configuration committed, and the project becomes a child of the system
/// subcontext and of the current user, each once the one before has succeeded.
pub proof fn installation_ends_with_its_parents(
    w: World,
    env: EnvView,
    root: Text,
    repair: bool,
    fresh: Text,
)
    requires
        from_hooks_run(w, env, root, repair, fresh).1 is Ok,
    ensures
        ({
            let after = from_hooks_run(w, env, root, repair, fresh).0;
            let (w1, uuid) = configure_run(w, env.agent, root, repair, fresh);
            let (w2, committed) = commit_config_run(w1, root);
            let (w3, child) = join_global_run(w2, env, uuid->Ok_0);
            let (w4, belongs) = join_user_run(w3, env, uuid->Ok_0);
            &&& uuid is Ok
            &&& committed is Ok
            &&& child is Ok
            &&& belongs is Ok
            &&& after == w4
        }),
{
}

/// An installation sets the alias once the context repo is there, and then goes
/// through what every installation ends with, with the repair that was asked for.
pub proof fn installing_goes_to_its_end(
    w: World,
    env: EnvView,
    root: Text,
    repair: bool,
    fresh: Text,
)
    requires
        install_run(w, env, root, repair, fresh).1 is Ok,
    ensures
        ({
            let after = install_run(w, env, root, repair, fresh).0;
            exists|w1: World, w2: World| #[trigger]
                did(w, w1, Seq::empty()) && w2 == alias_run(w1, root).0 && alias_run(w1, root).1
                    is Ok && #[trigger] from_hooks_run(w2, env, root, repair, fresh).1 is Ok && did(
                    from_hooks_run(w2, env, root, repair, fresh).0,
                    after,
                    Seq::empty(),
                )
        }),
{
    let after = install_run(w, env, root, repair, fresh).0;
    let (w1, name) = current_branch_run(w, root);
    let name = name->Ok_0;
    assert(did(w, w1, Seq::empty()));
    lemma_kept_by_ensure_repo(w, w1, root, name, Seq::empty());
    let w2 = ensure_repo_run(w1, root, name).0;
    let w3 = alias_run(w2, root).0;
    let w4 = from_hooks_run(w3, env, root, repair, fresh).0;
    assert(from_hooks_run(w3, env, root, repair, fresh).1 is Ok);
    assert(did(w4, w4, Seq::empty()));
    assert(after == summary_run(w4, name));
    assert(did(w4, after, Seq::empty()));
}

/// Was the state of the subcontext attached: its branch checked out where the
/// cloned repo has one, or set up anew?
pub open spec fn state_attached(w0: World, w: World, root: Text) -> bool {
    let question = bare_call(
        seq!["show-ref"@, "--verify"@, "refs/heads/state"@],
        repo_path(root),
        root,
    );
    ||| did(
        w0,
        w,
        seq![Step::Well(question)].push(
            Step::BareWell(
                seq!["worktree"@, "add"@, state_path(root), "state"@],
                repo_path(root),
                root,
            ),
        ),
    )
    ||| did(
        w0,
        w,
        seq![Step::Ill(question)].push(
            Step::Well(Call::Store(StoreCall::InitLocalState { root })),
        ),
    )
}

proof fn lemma_state_ref()
    ensures
        "refs/heads/"@ + "state"@ == "refs/heads/state"@,
{
    reveal_strlit("refs/heads/");
    reveal_strlit("state");
    reveal_strlit("refs/heads/state");
    assert("refs/heads/"@ + "state"@ =~= "refs/heads/state"@);
}

/// A clone attaches the state before it applies the overlay, and then goes
/// through what every installation ends with, without a repair.
pub proof fn cloning_goes_to_its_end(w: World, env: EnvView, root: Text, url: Text, fresh: Text)
    requires
        clone_run(w, env, root, url, fresh).1 is Ok,
    ensures
        ({
            let after = clone_run(w, env, root, url, fresh).0;
            exists|w1: World, w2: World, w3: World| #[trigger]
                state_attached(w1, w2, root) && #[trigger] overlay_applied(
                    w2,
                    w3,
                    Checkout::main_at(root),
                ) && from_hooks_run(w3, env, root, false, fresh).1 is Ok && did(
                    from_hooks_run(w3, env, root, false, fresh).0,
                    after,
                    Seq::empty(),
                )
        }),
{
    let after = clone_run(w, env, root, url, fresh).0;
    let c = Checkout::main_at(root);
    let w0 = w.path_exists(subcontext_path(root)).0;
    let wf = fetch_run(w0, root, url).0;
    let w1 = attach_overlay_run(wf, root).0;
    let w2 = attach_state_run(w1, root).0;
    lemma_state_ref();
    assert(state_attached(w1, w2, root));
    lemma_apply(w2, w2, c);
    let w3 = apply_run(w2, c).0;
    let w4 = from_hooks_run(w3, env, root, false, fresh).0;
    assert(overlay_applied(w2, w3, c));
    assert(did(w4, w4, Seq::empty()));
    assert(after == w4.note("[subcontext] Clone complete."@));
    assert(did(w4, after, Seq::empty()));
}

} // verus!
