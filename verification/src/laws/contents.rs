//! What is put into an overlay, a home directory or a directory of documents.

use vstd::prelude::*;

use crate::docs::{dump_from_run, dump_one_run, dump_run};
use crate::environment::{home_of, EnvView};
use crate::git::Checkout;
use crate::json::{json_compact, JsonView};
use crate::laws::overlay::{committed, group_kept, lemma_apply, lemma_committed, overlay_applied};
use crate::overlay::{apply_run, commit_work_run};
use crate::paths::path_join;
use crate::skills::{counted_run, install_from_run, install_one_run, install_run};
use crate::startup::startup_run;
use crate::submodule::{
    add_run, clean_gitdir_run, last_name, lists_submodule, path_from_url, remove_run, take_out_run,
    unslashed, update_run,
};
use crate::text::{lines_of, trimmed, Text};
use crate::trace::{did, git_call, group_did, Step};
use crate::world::{Call, World};

verus! {

broadcast use group_did;

// ─── Submodules ──────────────────────────────────────────────────────

/// The submodule was added in the work directory, and committed there.
pub open spec fn submodule_committed(work: Text, url: Text, path: Text) -> Seq<Step> {
    seq![Step::WorkWell(seq!["submodule"@, "add"@, url, path], work)].push(
        Step::WorkWell(seq!["add"@, "-A"@], work),
    ).push(Step::WorkWell(seq!["commit"@, "-m"@, "add submodule "@ + path], work))
}

/// Where a submodule is put: at the path that was given, or at the one that its
/// URL gives.
pub open spec fn submodule_place(url: Text, path: Option<Text>) -> Text {
    match path {
        Some(path) => path,
        None => path_from_url(url),
    }
}

/// Adding a submodule adds it in the work directory at the path that was given,
/// or at the one that its URL gives, commits it there, and applies the overlay. It
/// fails only where there is no work directory or a request fails.
pub proof fn submodule_is_added(w: World, c: Checkout, url: Text, path: Option<Text>)
    ensures
        ({
            let (after, done) = add_run(w, c, url, path);
            let place = submodule_place(url, path);
            match done {
                Ok(_) => exists|between: World, last: World| #[trigger]
                    did(w, between, submodule_committed(c.overlay_work(), url, place))
                        && #[trigger] overlay_applied(between, last, c) && did(
                        last,
                        after,
                        Seq::empty(),
                    ),
                Err(_) => did(w, after, seq![Step::Refused]) || did(
                    w,
                    after,
                    seq![Step::No(Call::Exists(c.overlay_work()))],
                ),
            }
        }),
{
    broadcast use group_kept;

    let (after, done) = add_run(w, c, url, path);
    let place = submodule_place(url, path);
    let work = c.overlay_work();
    let (w1, there) = w.path_exists(work);
    if there {
        let w2 = w1.note("[subcontext] Adding submodule "@ + url + " at "@ + place + "..."@);
        assert(did(w, w2, Seq::empty()));
        let (w3, added) = w2.work_git(seq!["submodule"@, "add"@, url, place], work);
        let (w4, staged) = w3.work_git(seq!["add"@, "-A"@], work);
        let (w5, kept) = w4.work_git(seq!["commit"@, "-m"@, "add submodule "@ + place], work);
        assert(did(w, w3, Seq::empty()));
        assert(did(w, w4, Seq::empty()));
        assert(did(w, w5, Seq::empty()));
        if added is Ok && staged is Ok && kept is Ok {
            assert(did(w, w5, submodule_committed(work, url, place)));
            lemma_apply(w5, w5, c);
            lemma_apply(w, w5, c);
            let w6 = apply_run(w5, c).0;
            assert(did(w6, w6, Seq::empty()));
            if done is Ok {
                assert(overlay_applied(w5, w6, c));
                assert(did(w6, after, Seq::empty()));
            }
        }
    }
}

/// Updating submodules has git update all of them in the work directory, where
/// there are any, and then applies the overlay.
pub proof fn submodules_are_updated(w: World, c: Checkout)
    ensures
        ({
            let (after, done) = update_run(w, c);
            let work = c.overlay_work();
            match done {
                Ok(_) => did(
                    w,
                    after,
                    seq![Step::No(Call::Exists(path_join(work, ".gitmodules"@)))],
                ) || exists|between: World, last: World| #[trigger]
                    did(
                        w,
                        between,
                        submodules_updated(work),
                    ) && #[trigger] overlay_applied(between, last, c) && did(
                        last,
                        after,
                        Seq::empty(),
                    ),
                Err(_) => did(w, after, seq![Step::Refused]) || did(
                    w,
                    after,
                    seq![Step::No(Call::Exists(work))],
                ),
            }
        }),
{
    broadcast use group_kept;

    let (after, done) = update_run(w, c);
    let work = c.overlay_work();
    let (w1, there) = w.path_exists(work);
    let (w2, any) = w1.path_exists(path_join(work, ".gitmodules"@));
    if there && any {
        let w3 = w2.note("[subcontext] Updating submodules..."@);
        assert(did(w, w3, Seq::empty()));
        let (w4, updated) = w3.work_git(
            seq!["submodule"@, "update"@, "--init"@, "--recursive"@],
            work,
        );
        assert(did(w, w4, Seq::empty()));
        if updated is Ok {
            assert(did(w, w4, submodules_updated(work)));
            lemma_apply(w4, w4, c);
            lemma_apply(w, w4, c);
            let w5 = apply_run(w4, c).0;
            assert(did(w5, w5, Seq::empty()));
        }
    }
}

/// Git was told to update all submodules in the work directory.
pub open spec fn submodules_updated(work: Text) -> Seq<Step> {
    seq![Step::WorkWell(seq!["submodule"@, "update"@, "--init"@, "--recursive"@], work)]
}

/// Was the submodule taken out: its directory in the checkout removed where it is
/// there, and then the submodule off and removed in the work directory?
pub open spec fn submodule_out(w0: World, w: World, c: Checkout, path: Text) -> bool {
    let place = path_join(c.checkout_root, path);
    let off = Step::WorkWell(seq!["submodule"@, "deinit"@, "-f"@, path], c.overlay_work());
    let gone = Step::WorkWell(seq!["rm"@, "-f"@, path], c.overlay_work());
    ||| did(w0, w, seq![Step::No(Call::Exists(place))].push(off).push(gone))
    ||| did(
        w0,
        w,
        seq![Step::Yes(Call::Exists(place))].push(Step::Well(Call::RemoveDirAll(place))).push(
            off,
        ).push(gone),
    )
}

proof fn lemma_kept_by_clean(w0: World, w: World, work: Text, path: Text, steps: Seq<Step>)
    requires
        did(w0, w, steps),
    ensures
        did(w0, clean_gitdir_run(w, work, path), steps),
{
}

proof fn lemma_taken_out(w0: World, w: World, c: Checkout, path: Text)
    requires
        did(w0, w, Seq::empty()),
        take_out_run(w, c, path).1 is Ok,
    ensures
        submodule_out(w0, take_out_run(w, c, path).0, c, path),
{
    broadcast use group_kept;

    let work = c.overlay_work();
    let place = path_join(c.checkout_root, path);
    let (w1, there) = w.path_exists(place);
    let (w2, gone) = if there {
        w1.remove_dir_all(place)
    } else {
        (w1, Ok(()))
    };
    let w3 = w2.work_git(seq!["submodule"@, "deinit"@, "-f"@, path], work).0;
    let w4 = w3.work_git(seq!["rm"@, "-f"@, path], work).0;
    let off = Step::WorkWell(seq!["submodule"@, "deinit"@, "-f"@, path], work);
    let removed = Step::WorkWell(seq!["rm"@, "-f"@, path], work);
    if there {
        let steps = seq![Step::Yes(Call::Exists(place))].push(
            Step::Well(Call::RemoveDirAll(place)),
        );
        assert(did(w0, w2, steps));
        assert(did(w0, w3, steps.push(off)));
        assert(did(w0, w4, steps.push(off).push(removed)));
        lemma_kept_by_clean(w0, w4, work, path, steps.push(off).push(removed));
    } else {
        let steps = seq![Step::No(Call::Exists(place))];
        assert(did(w0, w2, steps));
        assert(did(w0, w3, steps.push(off)));
        assert(did(w0, w4, steps.push(off).push(removed)));
        lemma_kept_by_clean(w0, w4, work, path, steps.push(off).push(removed));
    }
}

/// Removing a submodule, which git lists as one in the work directory, takes it
/// out of the checkout and of the work directory, commits that, and applies the
/// overlay.
pub proof fn submodule_is_removed(w: World, c: Checkout, path: Text)
    requires
        remove_run(w, c, path).1 is Ok,
    ensures
        ({
            let after = remove_run(w, c, path).0;
            let work = c.overlay_work();
            exists|staged: Text, w1: World, w2: World, w3: World, w4: World| #[trigger]
                did(w, w1, stages_told(work, staged)) && lists_submodule(
                    lines_of(staged),
                    path,
                ) && #[trigger] submodule_out(w1, w2, c, path) && #[trigger] committed(
                    w2,
                    w3,
                    work,
                    "remove submodule "@ + path,
                ) && #[trigger] overlay_applied(w3, w4, c) && did(w4, after, Seq::empty())
        }),
{
    broadcast use group_kept;

    let after = remove_run(w, c, path).0;
    let work = c.overlay_work();
    let w0 = w.path_exists(work).0;
    let (w1, staged) = w0.work_git(seq!["ls-files"@, "--stage"@], work);
    assert(did(w, w1, stages_told(work, staged->Ok_0)));
    let n = w1.note("[subcontext] Removing submodule "@ + path + "..."@);
    assert(did(w1, n, Seq::empty()));
    lemma_taken_out(w1, n, c, path);
    let w2 = take_out_run(n, c, path).0;
    lemma_committed(w2, w2, work, "remove submodule "@ + path);
    let w3 = commit_work_run(w2, work, "remove submodule "@ + path).0;
    lemma_apply(w3, w3, c);
    let w4 = apply_run(w3, c).0;
    assert(did(w4, w4, Seq::empty()));
    assert(did(w4, after, Seq::empty()));
    assert(submodule_out(w1, w2, c, path));
    assert(committed(w2, w3, work, "remove submodule "@ + path));
    assert(overlay_applied(w3, w4, c));
}

/// Git told what is staged in the work directory.
pub open spec fn stages_told(work: Text, staged: Text) -> Seq<Step> {
    seq![Step::WorkTold(seq!["ls-files"@, "--stage"@], work, staged)]
}

/// Does the text hold neither a slash nor a colon?
pub open spec fn is_name(name: Text) -> bool {
    forall|i: int| 0 <= i < name.len() ==> name[i] != '/' && name[i] != ':'
}

proof fn lemma_last_name(head: Text, name: Text)
    requires
        is_name(name),
        head.len() == 0 || head.last() == '/' || head.last() == ':',
    ensures
        last_name(head + name) == name,
    decreases name.len(),
{
    let url = head + name;
    if name.len() == 0 {
        assert(url =~= head);
        assert(last_name(url) =~= Seq::<char>::empty());
    } else {
        assert(url.last() == name.last());
        assert(url.drop_last() =~= head + name.drop_last());
        assert forall|i: int| 0 <= i < name.drop_last().len() implies name.drop_last()[i] != '/'
            && name.drop_last()[i] != ':' by {
            assert(name[i] != '/' && name[i] != ':');
        }
        assert(name[name.len() - 1] != '/' && name[name.len() - 1] != ':');
        lemma_last_name(head, name.drop_last());
        assert(name.drop_last().push(name.last()) =~= name);
    }
}

/// A submodule without a path of its own lies at the last name of its URL: what
/// stands behind the last slash or colon, with or without `.git` at its end.
pub proof fn submodule_lies_at_the_last_name(head: Text, name: Text)
    requires
        name.len() > 0,
        is_name(name),
        head.len() == 0 || head.last() == '/' || head.last() == ':',
        !".git"@.is_suffix_of(head + name),
    ensures
        path_from_url(head + name) == name,
        path_from_url(head + name + ".git"@) == name,
        path_from_url(head + name + seq!['/']) == name,
{
    reveal_strlit(".git");
    let url = head + name;
    assert(name[name.len() - 1] != '/');
    assert(url.last() == name.last());
    assert(unslashed(url) == url);
    lemma_last_name(head, name);
    let dotted = url + ".git"@;
    assert(dotted.last() == 't');
    assert(unslashed(dotted) == dotted);
    assert(".git"@.is_suffix_of(dotted));
    assert(dotted.take(dotted.len() - 4) =~= url);
    let slashed = url + seq!['/'];
    assert(slashed.last() == '/');
    assert(slashed.drop_last() =~= url);
    assert(unslashed(slashed) == unslashed(url));
}

// ─── Skills and documents ────────────────────────────────────────────

/// Is the skill installed: it was there, or its text was written to its
/// directory?
pub open spec fn skill_installed(w0: World, w: World, dir: Text, skill: (Text, Text)) -> bool {
    let dest = path_join(dir, skill.0);
    ||| did(w0, w, seq![Step::Yes(Call::Exists(dest))])
    ||| did(
        w0,
        w,
        seq![Step::No(Call::Exists(dest))].push(
            Step::Wrote(path_join(dest, "SKILL.md"@), skill.1),
        ),
    )
}

proof fn lemma_kept_by_skills(
    w0: World,
    w: World,
    dir: Text,
    skills: Seq<(Text, Text)>,
    i: nat,
    installed: nat,
    skipped: nat,
    steps: Seq<Step>,
)
    requires
        did(w0, w, steps),
    ensures
        did(w0, install_from_run(w, dir, skills, i, installed, skipped).0, steps),
    decreases skills.len() - i,
{
    if i < skills.len() {
        let (w1, done) = install_one_run(w, dir, skills[i as int]);
        assert(did(w0, w1, steps));
        if done is Ok {
            if done->Ok_0 {
                lemma_kept_by_skills(w0, w1, dir, skills, i + 1, installed + 1, skipped, steps);
            } else {
                lemma_kept_by_skills(w0, w1, dir, skills, i + 1, installed, skipped + 1, steps);
            }
        }
    }
}

proof fn lemma_skill(
    w0: World,
    w: World,
    dir: Text,
    skills: Seq<(Text, Text)>,
    i: nat,
    installed: nat,
    skipped: nat,
    k: int,
)
    requires
        did(w0, w, Seq::empty()),
        i <= k < skills.len(),
        install_from_run(w, dir, skills, i, installed, skipped).1 is Ok,
    ensures
        skill_installed(
            w0,
            install_from_run(w, dir, skills, i, installed, skipped).0,
            dir,
            skills[k],
        ),
    decreases skills.len() - i,
{
    let skill = skills[i as int];
    let (w1, done) = install_one_run(w, dir, skill);
    assert(did(w0, w1, Seq::empty()));
    let (more, less) = if done->Ok_0 {
        (installed + 1, skipped)
    } else {
        (installed, skipped + 1)
    };
    if i < k {
        lemma_skill(w0, w1, dir, skills, i + 1, more, less, k);
    } else {
        let dest = path_join(dir, skill.0);
        if done->Ok_0 {
            let steps = seq![Step::No(Call::Exists(dest))].push(
                Step::Wrote(path_join(dest, "SKILL.md"@), skill.1),
            );
            assert(did(w0, w1, steps));
            lemma_kept_by_skills(w0, w1, dir, skills, i + 1, more, less, steps);
        } else {
            let steps = seq![Step::Yes(Call::Exists(dest))];
            assert(did(w0, w1, steps));
            lemma_kept_by_skills(w0, w1, dir, skills, i + 1, more, less, steps);
        }
    }
}

/// Installing skills leaves each of them in the skills directory of the agent
/// harness in the home directory, under its name; one that is there is left as it
/// is.
pub proof fn every_skill_is_installed(w: World, env: EnvView, skills: Seq<(Text, Text)>, k: int)
    requires
        install_run(w, env, skills).1 is Ok,
        0 <= k < skills.len(),
    ensures
        home_of(env) is Some,
        skill_installed(
            w,
            install_run(w, env, skills).0,
            path_join(path_join(home_of(env)->0, env.agent.dir()), "skills"@),
            skills[k],
        ),
{
    let dir = path_join(path_join(home_of(env)->0, env.agent.dir()), "skills"@);
    let w1 = w.create_dir_all(dir).0;
    lemma_skill(w, w1, dir, skills, 0, 0, 0, k);
    let (w2, done) = install_from_run(w1, dir, skills, 0, 0, 0);
    let (installed, skipped) = done->Ok_0;
    let after = counted_run(w2, installed, skipped);
    let dest = path_join(dir, skills[k].0);
    let there = seq![Step::Yes(Call::Exists(dest))];
    let written = seq![Step::No(Call::Exists(dest))].push(
        Step::Wrote(path_join(dest, "SKILL.md"@), skills[k].1),
    );
    if did(w, w2, there) {
        assert(did(w, after, there));
    } else {
        assert(did(w, w2, written));
        assert(did(w, after, written));
    }
}

proof fn lemma_kept_by_dump(
    w0: World,
    w: World,
    dest: Text,
    docs: Seq<(Text, Text)>,
    i: nat,
    steps: Seq<Step>,
)
    requires
        did(w0, w, steps),
    ensures
        did(w0, dump_from_run(w, dest, docs, i).0, steps),
    decreases docs.len() - i,
{
    if i < docs.len() {
        let (w1, done) = dump_one_run(w, dest, docs[i as int]);
        assert(did(w0, w1, steps));
        if done is Ok {
            lemma_kept_by_dump(w0, w1, dest, docs, i + 1, steps);
        }
    }
}

proof fn lemma_dumped(w0: World, w: World, dest: Text, docs: Seq<(Text, Text)>, i: nat, k: int)
    requires
        did(w0, w, Seq::empty()),
        i <= k < docs.len(),
        dump_from_run(w, dest, docs, i).1 is Ok,
    ensures
        did(
            w0,
            dump_from_run(w, dest, docs, i).0,
            seq![Step::Wrote(path_join(dest, docs[k].0), docs[k].1)],
        ),
    decreases docs.len() - i,
{
    let (w1, done) = dump_one_run(w, dest, docs[i as int]);
    assert(did(w0, w1, Seq::empty()));
    if i < k {
        lemma_dumped(w0, w1, dest, docs, i + 1, k);
    } else {
        let steps = seq![Step::Wrote(path_join(dest, docs[k].0), docs[k].1)];
        assert(did(w0, w1, steps));
        lemma_kept_by_dump(w0, w1, dest, docs, i + 1, steps);
    }
}

proof fn lemma_dump_refused(w0: World, w: World, dest: Text, docs: Seq<(Text, Text)>, i: nat)
    requires
        did(w0, w, Seq::empty()),
        dump_from_run(w, dest, docs, i).1 is Err,
    ensures
        did(w0, dump_from_run(w, dest, docs, i).0, seq![Step::Refused]),
    decreases docs.len() - i,
{
    if i < docs.len() {
        let (w1, done) = dump_one_run(w, dest, docs[i as int]);
        assert(did(w0, w1, Seq::empty()));
        if done is Ok {
            lemma_dump_refused(w0, w1, dest, docs, i + 1);
        }
    }
}

/// Dumping the documents writes each of them to its path in the directory, with
/// its text. It fails only where a request does.
pub proof fn every_document_is_dumped(w: World, dest: Text, docs: Seq<(Text, Text)>)
    ensures
        ({
            let (after, done) = dump_run(w, dest, docs);
            match done {
                Ok(_) => forall|k: int|
                    0 <= k < docs.len() ==> did(
                        w,
                        after,
                        #[trigger] document_written(dest, docs[k]),
                    ),
                Err(_) => did(w, after, seq![Step::Refused]),
            }
        }),
{
    let (after, done) = dump_run(w, dest, docs);
    let (w1, made) = w.create_dir_all(dest);
    if made is Ok {
        let w2 = dump_from_run(w1, dest, docs, 0).0;
        if done is Ok {
            assert forall|k: int| 0 <= k < docs.len() implies did(
                w,
                after,
                #[trigger] document_written(dest, docs[k]),
            ) by {
                lemma_dumped(w, w1, dest, docs, 0, k);
                assert(did(w, w2, document_written(dest, docs[k])));
            }
        } else {
            lemma_dump_refused(w, w1, dest, docs, 0);
        }
    }
}

/// The document was written to its path.
pub open spec fn document_written(dest: Text, doc: (Text, Text)) -> Seq<Step> {
    seq![Step::Wrote(path_join(dest, doc.0), doc.1)]
}

// ─── Startup ─────────────────────────────────────────────────────────

/// What is handed to the agent harness at its start: a context, and that it goes
/// on.
pub open spec fn greeting(branch: Text, task: Text) -> JsonView {
    JsonView::Record(
        seq![
            (
                "additionalContext"@,
                JsonView::Text(
                    "Active worktree: "@ + branch + "\n\nCurrent task:\n\n"@ + task,
                ),
            ),
            ("continue"@, JsonView::Bool(true)),
        ],
    )
}

/// At its start the agent harness is told the branch and the text of the current
/// task, as that was read; nothing is told where there is no task or its text is
/// blank. It fails only where the task cannot be read.
pub proof fn startup_tells_the_task(w: World, root: Text)
    ensures
        ({
            let (after, told) = startup_run(w, root);
            let path = path_join(path_join(root, ".subcontext"@), "TASK.md"@);
            let host = git_call(seq!["symbolic-ref"@, "--short"@, "HEAD"@], root);
            match told {
                Ok(Some(output)) => exists|task: Text, branch: Text| #[trigger]
                    startup_told(w, after, path, host, task, branch) && output == json_compact(
                        greeting(branch, task),
                    ),
                Ok(None) => did(w, after, seq![Step::No(Call::Exists(path))]) || exists|task: Text|
                    trimmed(task).len() == 0 && #[trigger] did(
                        w,
                        after,
                        seq![Step::Told(Call::Read(path), task)],
                    ),
                Err(_) => did(w, after, seq![Step::Ill(Call::Read(path))]),
            }
        }),
{
    let (after, told) = startup_run(w, root);
    let path = path_join(path_join(root, ".subcontext"@), "TASK.md"@);
    let host = git_call(seq!["symbolic-ref"@, "--short"@, "HEAD"@], root);
    let (w1, there) = w.path_exists(path);
    let (w2, task) = w1.read(path);
    if there && task is Ok {
        let task = task->Ok_0;
        assert(did(w, w2, seq![Step::Told(Call::Read(path), task)]));
        if trimmed(task).len() > 0 {
            let (w3, branch) = crate::git::current_branch_run(w2, root);
            let branch = match branch {
                Ok(branch) => branch,
                Err(_) => "unknown"@,
            };
            assert(startup_told(w, after, path, host, task, branch));
        }
    }
}

/// Were the task and then the branch told, where `unknown` stands for a branch
/// that cannot be told?
pub open spec fn startup_told(
    w0: World,
    w: World,
    path: Text,
    host: Call,
    task: Text,
    branch: Text,
) -> bool {
    let read = seq![Step::Told(Call::Read(path), task)];
    ||| did(w0, w, read.push(Step::Told(host, branch)))
    ||| branch == "unknown"@ && did(w0, w, read.push(Step::Ill(host)))
}

} // verus!
