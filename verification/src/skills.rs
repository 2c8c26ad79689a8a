//! Installing the bundled skills.

use vstd::prelude::*;

use crate::backend::{write_text, Backend};
use crate::environment::{home_of, Env, EnvView};
use crate::failure::{fail, failed, outcome, Failure, Outcome};
use crate::paths::{join_path, path_join};
use crate::text::{cat3, cat5, decimal, number_text, Text};
use crate::world::World;

verus! {

/// Installing one skill, its name and its content, unless there is one of its
/// name. The answer tells whether it was installed.
pub open spec fn install_one_run(w: World, dir: Text, skill: (Text, Text)) -> (
    World,
    Outcome<bool>,
) {
    let dest = path_join(dir, skill.0);
    let (w, there) = w.path_exists(dest);
    if there {
        (
            w.note(
                "[subcontext] Skill '"@ + skill.0 + "' already exists at "@ + dest
                    + " — skipping"@,
            ),
            Ok(false),
        )
    } else {
        let (w, made) = w.create_dir_all(dest);
        match made {
            Err(e) => (w, Err(e)),
            Ok(_) => {
                let (w, written) = w.write(path_join(dest, "SKILL.md"@), skill.1);
                match written {
                    Err(e) => (w, Err(e)),
                    Ok(_) => (
                        w.note(
                            "[subcontext] Installed skill '"@ + skill.0 + "' to "@ + dest,
                        ),
                        Ok(true),
                    ),
                }
            },
        }
    }
}

/// Installing the skills from the `i`-th on; the answer is how many were
/// installed and how many skipped, with those before.
pub open spec fn install_from_run(
    w: World,
    dir: Text,
    skills: Seq<(Text, Text)>,
    i: nat,
    installed: nat,
    skipped: nat,
) -> (World, Outcome<(nat, nat)>)
    decreases skills.len() - i,
{
    if i >= skills.len() {
        (w, Ok((installed, skipped)))
    } else {
        let (w, done) = install_one_run(w, dir, skills[i as int]);
        match done {
            Err(e) => (w, Err(e)),
            Ok(true) => install_from_run(w, dir, skills, i + 1, installed + 1, skipped),
            Ok(false) => install_from_run(w, dir, skills, i + 1, installed, skipped + 1),
        }
    }
}

/// Telling how many skills were installed and skipped.
pub open spec fn counted_run(w: World, installed: nat, skipped: nat) -> World {
    let w = if installed > 0 {
        w.note("[subcontext] Installed "@ + decimal(installed) + " skill(s)."@)
    } else {
        w
    };
    let w = if skipped > 0 {
        w.note("[subcontext] Skipped "@ + decimal(skipped) + " existing skill(s)."@)
    } else {
        w
    };
    if installed == 0 && skipped == 0 {
        w.note("[subcontext] No skills to install."@)
    } else {
        w
    }
}

/// Installing the skills.
pub open spec fn install_run(w: World, env: EnvView, skills: Seq<(Text, Text)>) -> (
    World,
    Outcome<()>,
) {
    match home_of(env) {
        None => (w, Err(failed("cannot determine home directory"@))),
        Some(home) => {
            let dir = path_join(path_join(home, env.agent.dir()), "skills"@);
            let (w, made) = w.create_dir_all(dir);
            match made {
                Err(e) => (w, Err(e)),
                Ok(_) => {
                    let (w, done) = install_from_run(w, dir, skills, 0, 0, 0);
                    match done {
                        Err(e) => (w, Err(e)),
                        Ok((installed, skipped)) => (counted_run(w, installed, skipped), Ok(())),
                    }
                },
            }
        },
    }
}

/// Install one skill, unless there is one of its name.
fn install_one<B: Backend>(backend: &mut B, dir: &str, name: &str, content: &str) -> (r: Result<
    bool,
    Failure,
>)
    ensures
        (final(backend).world(), outcome(r)) == install_one_run(
            old(backend).world(),
            dir@,
            (name@, content@),
        ),
{
    let dest_dir = join_path(dir, name);
    let dest_file = join_path(dest_dir.as_str(), "SKILL.md");
    if backend.path_exists(dest_dir.as_str()) {
        let line = cat5(
            "[subcontext] Skill '",
            name,
            "' already exists at ",
            dest_dir.as_str(),
            " — skipping",
        );
        backend.note(line.as_str());
        return Ok(false);
    }
    backend.create_dir_all(dest_dir.as_str())?;
    write_text(backend, dest_file.as_str(), content)?;
    let line = crate::text::cat4(
        "[subcontext] Installed skill '",
        name,
        "' to ",
        dest_dir.as_str(),
    );
    backend.note(line.as_str());
    Ok(true)
}

/// Tell how many skills were installed and skipped.
fn tell_counts<B: Backend>(backend: &mut B, installed: usize, skipped: usize)
    ensures
        final(backend).world() == counted_run(
            old(backend).world(),
            installed as nat,
            skipped as nat,
        ),
{
    if installed > 0 {
        let count = number_text(installed);
        let line = cat3("[subcontext] Installed ", count.as_str(), " skill(s).");
        backend.note(line.as_str());
    }
    if skipped > 0 {
        let count = number_text(skipped);
        let line = cat3("[subcontext] Skipped ", count.as_str(), " existing skill(s).");
        backend.note(line.as_str());
    }
    if installed == 0 && skipped == 0 {
        backend.note("[subcontext] No skills to install.");
    }
}

/// Install all bundled skills into the global skills directory of the agent
/// harness (`skills/` under its directory in the home directory). If a skill
/// directory already exists, print a warning and skip it. Each skill is its
/// directory name and the content of its SKILL.md.
pub fn install_skills<B: Backend>(backend: &mut B, env: &Env, skills: &[(&str, &str)]) -> (r: Result<
    (),
    Failure,
>)
    ensures
        (final(backend).world(), outcome(r)) == install_run(
            old(backend).world(),
            env@,
            skills.deep_view(),
        ),
{
    let home = match env.home_dir() {
        Some(home) => home,
        None => {
            return Err(fail("cannot determine home directory"));
        },
    };
    let base = join_path(home.as_str(), env.agent.dir().as_str());
    let dir = join_path(base.as_str(), "skills");
    backend.create_dir_all(dir.as_str())?;
    let ghost all = skills.deep_view();
    let ghost w0 = backend.world();
    let mut installed: usize = 0;
    let mut skipped: usize = 0;
    let mut i: usize = 0;
    while i < skills.len()
        invariant
            i <= skills@.len(),
            installed + skipped == i,
            all == skills.deep_view(),
            home_of(env@) == Some(home@),
            dir@ == path_join(path_join(home@, env@.agent.dir()), "skills"@),
            old(backend).world().create_dir_all(dir@) == (w0, Ok::<(), Seq<Text>>(())),
            install_from_run(
                backend.world(),
                dir@,
                all,
                i as nat,
                installed as nat,
                skipped as nat,
            ) == install_from_run(w0, dir@, all, 0, 0, 0),
        decreases skills@.len() - i,
    {
        assert(all[i as int] == (skills@[i as int].0@, skills@[i as int].1@));
        if install_one(backend, dir.as_str(), skills[i].0, skills[i].1)? {
            installed = installed + 1;
        } else {
            skipped = skipped + 1;
        }
        i = i + 1;
    }
    tell_counts(backend, installed, skipped);
    Ok(())
}

// ─── Laws ────────────────────────────────────────────────────────────

/// A skill that is there is not overwritten: it is looked for, and that it is
/// skipped is told.
pub proof fn existing_skill_stays(w: World, dir: Text, skill: (Text, Text))
    requires
        w.path_exists(path_join(dir, skill.0)).1,
    ensures
        install_one_run(w, dir, skill).1 == Ok::<bool, Seq<Text>>(false),
        install_one_run(w, dir, skill).0.calls.len() == w.calls.len() + 2,
        install_one_run(w, dir, skill).0.calls.last() is Note,
{
}

/// Every skill is installed or skipped: the two counts add up to the number of
/// skills.
pub proof fn every_skill_is_counted(
    w: World,
    dir: Text,
    skills: Seq<(Text, Text)>,
    i: nat,
    installed: nat,
    skipped: nat,
)
    requires
        i <= skills.len(),
        installed + skipped == i,
        install_from_run(w, dir, skills, i, installed, skipped).1 is Ok,
    ensures
        ({
            let counts = install_from_run(w, dir, skills, i, installed, skipped).1->Ok_0;
            counts.0 + counts.1 == skills.len()
        }),
    decreases skills.len() - i,
{
    if i < skills.len() {
        let (w1, done) = install_one_run(w, dir, skills[i as int]);
        match done {
            Ok(true) => every_skill_is_counted(w1, dir, skills, i + 1, installed + 1, skipped),
            Ok(false) => every_skill_is_counted(w1, dir, skills, i + 1, installed, skipped + 1),
            Err(_) => {},
        }
    }
}

} // verus!
