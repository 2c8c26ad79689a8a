//! What an agent is told when its session starts.

use vstd::prelude::*;

use crate::backend::Backend;
use crate::failure::{outcome, Failure, Outcome};
use crate::git::{current_branch, current_branch_run};
use crate::json::{
    compact_json, json_compact, lemma_key_position_is, make_value, map_entries, map_insert, map_new,
    text_value, JsonView, Parts,
};
use crate::paths::{join_path, path_join};
use crate::text::{cat4, trim, trimmed, Text};
use crate::world::World;

verus! {

/// What the agent is told: the branch and the task.
pub open spec fn startup_context(branch: Text, task: Text) -> Text {
    "Active worktree: "@ + branch + "\n\nCurrent task:\n\n"@ + task
}

/// The answer to a SessionStart hook.
pub open spec fn startup_tree(context: Text) -> JsonView {
    JsonView::Record(
        seq![
            ("additionalContext"@, JsonView::Text(context)),
            ("continue"@, JsonView::Bool(true)),
        ],
    )
}

/// The output for a branch and a task.
pub open spec fn startup_output(branch: Text, task: Text) -> Text {
    json_compact(startup_tree(startup_context(branch, task)))
}

/// The output for a branch and a task.
pub fn format_startup(branch: &str, task: &str) -> (r: String)
    ensures
        r@ == startup_output(branch@, task@),
{
    let context = cat4("Active worktree: ", branch, "\n\nCurrent task:\n\n", task);
    let mut map = map_new();
    map_insert(&mut map, "additionalContext".to_owned(), text_value(context.as_str()));
    let ghost first = map_entries(map);
    map_insert(&mut map, "continue".to_owned(), make_value(Parts::Bool(true)));
    proof {
        reveal_strlit("additionalContext");
        reveal_strlit("continue");
        assert("additionalContext"@.len() != "continue"@.len());
        assert(first =~= seq![("additionalContext"@, JsonView::Text(context@))]);
        lemma_key_position_is(first, "continue"@, 1);
        assert(map_entries(map) =~= startup_tree(context@)->Record_0);
    }
    compact_json(&make_value(Parts::Record(map)))
}

/// Where the task of a repository is.
pub open spec fn task_path(root: Text) -> Text {
    path_join(path_join(root, ".subcontext"@), "TASK.md"@)
}

/// Telling an agent the task of a repository; there is nothing to tell where the
/// task is missing or blank.
pub open spec fn startup_run(w: World, root: Text) -> (World, Outcome<Option<Text>>) {
    let (w, there) = w.path_exists(task_path(root));
    if !there {
        (w, Ok(None))
    } else {
        let (w, task) = w.read(task_path(root));
        match task {
            Err(e) => (w, Err(e)),
            Ok(task) => if trimmed(task).len() == 0 {
                (w, Ok(None))
            } else {
                let (w, branch) = current_branch_run(w, root);
                let branch = match branch {
                    Ok(branch) => branch,
                    Err(_) => "unknown"@,
                };
                (w, Ok(Some(startup_output(branch, task))))
            },
        }
    }
}

/// Run `subcontext startup`. Gives the JSON for the SessionStart hook of
/// the agent harness, if there is anything to output.
///
/// The JSON format uses `additionalContext` to inject text into the
/// context of the agent, which is the structured way to communicate with SessionStart.
/// This lets us add more fields (e.g. `continue`, env vars) later.
pub fn startup<B: Backend>(backend: &mut B, root: &str) -> (r: Result<Option<String>, Failure>)
    ensures
        (final(backend).world(), outcome(r)) == startup_run(old(backend).world(), root@),
{
    let dir = join_path(root, ".subcontext");
    let path = join_path(dir.as_str(), "TASK.md");
    if !backend.path_exists(path.as_str()) {
        return Ok(None);
    }
    let contents = backend.read_to_string(path.as_str())?;
    if trim(contents.as_str()).as_str().is_empty() {
        return Ok(None);
    }
    let branch = match current_branch(backend, root) {
        Ok(branch) => branch,
        Err(_) => "unknown".to_owned(),
    };
    Ok(Some(format_startup(branch.as_str(), contents.as_str())))
}

} // verus!
