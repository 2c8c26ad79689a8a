//! The settings of the agent harness: the SessionStart hook that subcontext adds
//! to them.

use serde_json::Value;
use vstd::prelude::*;

use crate::agent::{Agent, AgentView};
use crate::backend::{write_text, Backend};
use crate::failure::{context, contextual, fail, failed, outcome, wrapped, Failure, Outcome};
use crate::git::{config_dir, config_path};
use crate::json::{
    as_text, copy_value, document, document_text, field, field_of, insert_sets_one_key, json_parsed,
    list1, lookup, make_value, map_get, map_insert, map_new, open_value, parse_json, record1,
    record2, text_in, text_value, tree_option, trees, value_tree, with_entry, Entries, JsonView,
    Parts, Shape,
};
use crate::paths::{join_path, path_join};
use crate::text::{cat, cat3, same, Text};
use crate::world::World;

verus! {

// ─── The hook ────────────────────────────────────────────────────────

/// The command that the hook runs.
pub open spec fn startup_command(agent: AgentView) -> Text {
    "git subcontext startup "@ + agent.flag()
}

/// Is this a command of ours, in its present or an older form?
pub open spec fn our_command(agent: AgentView, command: Text) -> bool {
    ||| command == startup_command(agent)
    ||| command == "subcontext startup "@ + agent.flag()
    ||| command == "subcontext startup"@
}

/// Does the hook run a command of ours?
pub open spec fn our_hook(agent: AgentView, hook: JsonView) -> bool {
    match text_in(field_of(hook, "command"@)) {
        Some(command) => our_command(agent, command),
        None => false,
    }
}

/// Is one of the hooks of this entry ours?
pub open spec fn our_entry(agent: AgentView, entry: JsonView) -> bool {
    match field_of(entry, "hooks"@) {
        Some(JsonView::List(hooks)) => exists|i: int|
            0 <= i < hooks.len() && our_hook(agent, #[trigger] hooks[i]),
        _ => false,
    }
}

/// The entry that subcontext adds.
pub open spec fn hook_entry(agent: AgentView) -> JsonView {
    JsonView::Record(
        seq![
            (
                "hooks"@,
                JsonView::List(
                    seq![
                        JsonView::Record(
                            seq![
                                ("type"@, JsonView::Text("command"@)),
                                ("command"@, JsonView::Text(startup_command(agent))),
                            ],
                        ),
                    ],
                ),
            ),
        ],
    )
}

/// The SessionStart hook entry that subcontext injects.
pub fn subcontext_hook_entry(agent: &Agent) -> (r: Value)
    ensures
        value_tree(r) == hook_entry(agent@),
{
    let flag = agent.flag();
    let command = cat("git subcontext startup ", flag.as_str());
    proof {
        reveal_strlit("type");
        reveal_strlit("command");
        assert("type"@.len() != "command"@.len());
    }
    let hook = record2("type", text_value("command"), "command", text_value(command.as_str()));
    record1("hooks", list1(hook))
}

/// Does the hook run a command of ours?
fn is_our_hook(agent: &Agent, hook: &Value) -> (r: bool)
    ensures
        r == our_hook(agent@, value_tree(*hook)),
{
    match as_text(field(hook, "command")) {
        Some(command) => {
            let flag = agent.flag();
            let present = cat("git subcontext startup ", flag.as_str());
            let older = cat("subcontext startup ", flag.as_str());
            same(command.as_str(), present.as_str()) || same(command.as_str(), older.as_str())
                || same(command.as_str(), "subcontext startup")
        },
        None => false,
    }
}

/// Is one of the hooks of this entry ours?
pub fn is_our_entry(agent: &Agent, entry: &Value) -> (r: bool)
    ensures
        r == our_entry(agent@, value_tree(*entry)),
{
    match field(entry, "hooks") {
        Some(hooks) => match open_value(hooks) {
            Shape::List(hooks) => {
                let ghost all = trees(hooks@);
                let mut i: usize = 0;
                while i < hooks.len()
                    invariant
                        i <= hooks@.len(),
                        all == trees(hooks@),
                        field_of(value_tree(*entry), "hooks"@) == Some(JsonView::List(all)),
                        forall|j: int| 0 <= j < i ==> !our_hook(agent@, #[trigger] all[j]),
                    decreases hooks@.len() - i,
                {
                    assert(all[i as int] == value_tree(hooks@[i as int]));
                    if is_our_hook(agent, &hooks[i]) {
                        assert(our_hook(
                            agent@,
                            field_of(value_tree(*entry), "hooks"@)->0->List_0[i as int],
                        ));
                        return true;
                    }
                    i = i + 1;
                }
                false
            },
            _ => false,
        },
        None => false,
    }
}

// ─── Merging ─────────────────────────────────────────────────────────

/// Is one of the entries ours?
pub open spec fn has_ours(agent: AgentView, items: Seq<JsonView>) -> bool {
    exists|i: int| 0 <= i < items.len() && our_entry(agent, #[trigger] items[i])
}

/// The entries with ours among them.
pub open spec fn with_ours(agent: AgentView, items: Seq<JsonView>) -> Seq<JsonView> {
    if has_ours(agent, items) {
        items
    } else {
        items.push(hook_entry(agent))
    }
}

/// The hooks with our entry under SessionStart.
pub open spec fn hooks_merged(agent: AgentView, hooks: Entries) -> Outcome<Entries> {
    match lookup(hooks, "SessionStart"@) {
        None => Ok(
            with_entry(hooks, "SessionStart"@, JsonView::List(with_ours(agent, Seq::empty()))),
        ),
        Some(JsonView::List(items)) => Ok(
            with_entry(hooks, "SessionStart"@, JsonView::List(with_ours(agent, items))),
        ),
        Some(_) => Err(failed("SessionStart field is not an array"@)),
    }
}

/// The settings with our hook.
pub open spec fn settings_merged(agent: AgentView, settings: JsonView) -> Outcome<JsonView> {
    match settings {
        JsonView::Record(entries) => {
            let hooks = match lookup(entries, "hooks"@) {
                None => Ok(Seq::empty()),
                Some(JsonView::Record(hooks)) => Ok(hooks),
                Some(_) => Err(failed("hooks field is not an object"@)),
            };
            match hooks {
                Err(e) => Err(e),
                Ok(hooks) => match hooks_merged(agent, hooks) {
                    Err(e) => Err(e),
                    Ok(hooks) => Ok(
                        JsonView::Record(with_entry(entries, "hooks"@, JsonView::Record(hooks))),
                    ),
                },
            }
        },
        _ => Err(failed("settings.local.json root is not an object"@)),
    }
}

/// The view of a result that is a value.
pub open spec fn tree_outcome(r: Result<Value, Failure>) -> Outcome<JsonView> {
    match r {
        Ok(v) => Ok(value_tree(v)),
        Err(e) => Err(e@),
    }
}

/// Add our entry to a list of entries, unless one of them is ours.
fn add_ours(agent: &Agent, items: Vec<Value>) -> (r: Vec<Value>)
    ensures
        trees(r@) == with_ours(agent@, trees(items@)),
{
    let ghost all = trees(items@);
    let mut i: usize = 0;
    while i < items.len()
        invariant
            i <= items@.len(),
            all == trees(items@),
            forall|j: int| 0 <= j < i ==> !our_entry(agent@, #[trigger] all[j]),
        decreases items@.len() - i,
    {
        assert(all[i as int] == value_tree(items@[i as int]));
        if is_our_entry(agent, &items[i]) {
            return items;
        }
        i = i + 1;
    }
    let mut items = items;
    items.push(subcontext_hook_entry(agent));
    assert(trees(items@) =~= all.push(hook_entry(agent@)));
    items
}

/// Add our hook to the settings.
pub fn merge_hook(agent: &Agent, settings: Value) -> (r: Result<Value, Failure>)
    ensures
        tree_outcome(r) == settings_merged(agent@, value_tree(settings)),
{
    // Ensure settings is an object
    let mut obj = match open_value(settings) {
        Shape::Record(obj) => obj,
        _ => {
            return Err(fail("settings.local.json root is not an object"));
        },
    };

    // Get or create the hooks object
    let mut hooks = match map_get(&obj, "hooks") {
        None => map_new(),
        Some(hooks) => match open_value(hooks) {
            Shape::Record(hooks) => hooks,
            _ => {
                return Err(fail("hooks field is not an object"));
            },
        },
    };

    // Get or create the SessionStart array
    let items = match map_get(&hooks, "SessionStart") {
        None => {
            let none: Vec<Value> = Vec::new();
            assert(trees(none@) =~= Seq::empty());
            none
        },
        Some(items) => match open_value(items) {
            Shape::List(items) => items,
            _ => {
                return Err(fail("SessionStart field is not an array"));
            },
        },
    };
    let items = add_ours(agent, items);
    map_insert(&mut hooks, "SessionStart".to_owned(), make_value(Parts::List(items)));
    map_insert(&mut obj, "hooks".to_owned(), make_value(Parts::Record(hooks)));
    Ok(make_value(Parts::Record(obj)))
}

/// What the text of the settings is read as.
pub open spec fn parsed_settings(agent: AgentView, content: Text) -> Outcome<JsonView> {
    match json_parsed(content) {
        Ok(tree) => Ok(tree),
        Err(e) => Err(wrapped("failed to parse "@ + agent.settings_name(), failed(e))),
    }
}

/// Read the text of the settings.
pub fn parse_settings(agent: &Agent, content: &str) -> (r: Result<Value, Failure>)
    ensures
        tree_outcome(r) == parsed_settings(agent@, content@),
{
    match parse_json(content) {
        Ok(v) => Ok(v),
        Err(e) => {
            let name = agent.settings_name();
            let message = cat("failed to parse ", name.as_str());
            Err(fail(e.as_str()).within(message.as_str()))
        },
    }
}

/// Where the settings are.
pub open spec fn settings_path(agent: AgentView, root: Text) -> Text {
    path_join(path_join(root, agent.dir()), "settings.local.json"@)
}

/// Reading the settings, or starting fresh.
pub open spec fn read_settings_run(w: World, agent: AgentView, root: Text) -> (
    World,
    Outcome<JsonView>,
) {
    let (w, there) = w.path_exists(settings_path(agent, root));
    if !there {
        (w, Ok(JsonView::Record(Seq::empty())))
    } else {
        let (w, content) = w.read(settings_path(agent, root));
        match contextual(content, "failed to read "@ + agent.settings_name()) {
            Err(e) => (w, Err(e)),
            Ok(content) => (w, parsed_settings(agent, content)),
        }
    }
}

/// Copying the settings to the config mount, where there is one.
pub open spec fn copy_settings_run(w: World, agent: AgentView, root: Text) -> (World, Outcome<()>) {
    let (w, there) = w.path_exists(config_path(root));
    if !there {
        (w, Ok(()))
    } else {
        let dir = path_join(path_join(config_path(root), "agents"@), agent.name);
        let (w, made) = w.create_dir_all(dir);
        match made {
            Err(e) => (w, Err(e)),
            Ok(_) => {
                let (w, copied) = w.copy(
                    settings_path(agent, root),
                    path_join(dir, "settings.local.json"@),
                );
                match contextual(copied, "failed to copy settings to config mount"@) {
                    Err(e) => (w, Err(e)),
                    Ok(_) => (w, Ok(())),
                }
            },
        }
    }
}

/// Merging our hook into the settings of a repository.
pub open spec fn merge_run(w: World, agent: AgentView, root: Text) -> (World, Outcome<()>) {
    let (w, made) = w.create_dir_all(path_join(root, agent.dir()));
    match made {
        Err(e) => (w, Err(e)),
        Ok(_) => {
            let (w, settings) = read_settings_run(w, agent, root);
            match settings {
                Err(e) => (w, Err(e)),
                Ok(settings) => match settings_merged(agent, settings) {
                    Err(e) => (w, Err(e)),
                    Ok(settings) => {
                        let (w, written) = w.write(
                            settings_path(agent, root),
                            document_text(settings),
                        );
                        match contextual(written, "failed to write "@ + agent.settings_name()) {
                            Err(e) => (w, Err(e)),
                            Ok(_) => {
                                let (w, copied) = copy_settings_run(w, agent, root);
                                match copied {
                                    Err(e) => (w, Err(e)),
                                    Ok(_) => (
                                        w.note(
                                            "[subcontext] Configured "@ + agent.title + " SessionStart hook."@,
                                        ),
                                        Ok(()),
                                    ),
                                }
                            },
                        }
                    },
                },
            }
        },
    }
}

/// Read the settings, or start fresh.
fn read_settings<B: Backend>(
    backend: &mut B,
    agent: &Agent,
    settings_file: &str,
    Ghost(root): Ghost<Text>,
) -> (r: Result<Value, Failure>)
    requires
        settings_file@ == settings_path(agent@, root),
    ensures
        (final(backend).world(), tree_outcome(r)) == read_settings_run(
            old(backend).world(),
            agent@,
            root,
        ),
{
    if !backend.path_exists(settings_file) {
        return Ok(make_value(Parts::Record(map_new())));
    }
    let name = agent.settings_name();
    let message = cat("failed to read ", name.as_str());
    let content = context(backend.read_to_string(settings_file), message.as_str())?;
    parse_settings(agent, content.as_str())
}

/// Copy the settings to the config mount, where there is one.
fn copy_settings<B: Backend>(
    backend: &mut B,
    agent: &Agent,
    root: &str,
    settings_file: &str,
) -> (r: Result<(), Failure>)
    requires
        settings_file@ == settings_path(agent@, root@),
    ensures
        (final(backend).world(), outcome(r)) == copy_settings_run(
            old(backend).world(),
            agent@,
            root@,
        ),
{
    let cfg = config_dir(root);
    if !backend.path_exists(cfg.as_str()) {
        return Ok(());
    }
    let agents = join_path(cfg.as_str(), "agents");
    let dir = join_path(agents.as_str(), agent.name.as_str());
    backend.create_dir_all(dir.as_str())?;
    let dest = join_path(dir.as_str(), "settings.local.json");
    context(
        backend.copy(settings_file, dest.as_str()),
        "failed to copy settings to config mount",
    )?;
    Ok(())
}

/// Merge the subcontext SessionStart hook into the settings of the harness.
/// Reads existing settings.local.json, adds the hook, writes back.
/// Also copies the result to the config branch mount.
pub fn merge_claude_settings<B: Backend>(backend: &mut B, agent: &Agent, root: &str) -> (r: Result<
    (),
    Failure,
>)
    ensures
        (final(backend).world(), outcome(r)) == merge_run(old(backend).world(), agent@, root@),
{
    let dir = join_path(root, agent.dir().as_str());
    backend.create_dir_all(dir.as_str())?;
    let settings_file = join_path(dir.as_str(), "settings.local.json");

    // Read existing settings or start fresh
    let settings = read_settings(backend, agent, settings_file.as_str(), Ghost(root@))?;
    let settings = merge_hook(agent, settings)?;

    // Write back to settings.local.json
    let formatted = document(&settings);
    let name = agent.settings_name();
    let message = cat("failed to write ", name.as_str());
    context(
        write_text(backend, settings_file.as_str(), formatted.as_str()),
        message.as_str(),
    )?;

    copy_settings(backend, agent, root, settings_file.as_str())?;
    let line = cat3("[subcontext] Configured ", agent.title.as_str(), " SessionStart hook.");
    backend.note(line.as_str());
    Ok(())
}

// ─── Removing ────────────────────────────────────────────────────────

/// The entries that are not ours.
pub open spec fn without_ours(agent: AgentView, items: Seq<JsonView>) -> Seq<JsonView>
    decreases items.len(),
{
    if items.len() == 0 {
        Seq::empty()
    } else if our_entry(agent, items.last()) {
        without_ours(agent, items.drop_last())
    } else {
        without_ours(agent, items.drop_last()).push(items.last())
    }
}

/// The settings without our hook: none where there is nothing to remove.
pub open spec fn settings_unmerged(agent: AgentView, settings: JsonView) -> Option<JsonView> {
    match settings {
        JsonView::Record(entries) => match lookup(entries, "hooks"@) {
            Some(JsonView::Record(hooks)) => match lookup(hooks, "SessionStart"@) {
                Some(JsonView::List(items)) => if has_ours(agent, items) {
                    Some(
                        JsonView::Record(
                            with_entry(
                                entries,
                                "hooks"@,
                                JsonView::Record(
                                    with_entry(
                                        hooks,
                                        "SessionStart"@,
                                        JsonView::List(without_ours(agent, items)),
                                    ),
                                ),
                            ),
                        ),
                    )
                } else {
                    None
                },
                _ => None,
            },
            _ => None,
        },
        _ => None,
    }
}

proof fn lemma_without_ours(agent: AgentView, items: Seq<JsonView>)
    ensures
        without_ours(agent, items).len() <= items.len(),
        has_ours(agent, items) <==> without_ours(agent, items).len() < items.len(),
        !has_ours(agent, items) ==> without_ours(agent, items) == items,
    decreases items.len(),
{
    if items.len() > 0 {
        let front = items.drop_last();
        lemma_without_ours(agent, front);
        if has_ours(agent, items) {
            let i = choose|i: int| 0 <= i < items.len() && our_entry(agent, #[trigger] items[i]);
            if i < front.len() {
                assert(our_entry(agent, front[i]));
            }
        }
        if our_entry(agent, items.last()) {
            assert(our_entry(agent, items[items.len() - 1]));
        }
        if has_ours(agent, front) {
            let i = choose|i: int| 0 <= i < front.len() && our_entry(agent, #[trigger] front[i]);
            assert(our_entry(agent, items[i]));
        }
        if !has_ours(agent, items) {
            assert(front.push(items.last()) =~= items);
        }
    } else {
        assert(without_ours(agent, items) =~= items);
    }
}

/// The entries that are not ours.
fn remove_ours(agent: &Agent, items: &Vec<Value>) -> (r: Vec<Value>)
    ensures
        trees(r@) == without_ours(agent@, trees(items@)),
{
    let ghost all = trees(items@);
    let mut out: Vec<Value> = Vec::new();
    let mut i: usize = 0;
    assert(trees(out@) =~= without_ours(agent@, all.take(0)));
    while i < items.len()
        invariant
            i <= items@.len(),
            all == trees(items@),
            trees(out@) == without_ours(agent@, all.take(i as int)),
        decreases items@.len() - i,
    {
        let ghost before = trees(out@);
        proof {
            assert(all.take(i + 1).drop_last() =~= all.take(i as int));
            assert(all.take(i + 1).last() == value_tree(items@[i as int]));
        }
        if !is_our_entry(agent, &items[i]) {
            let item = copy_value(&items[i]);
            out.push(item);
            assert(trees(out@) =~= before.push(value_tree(item)));
        }
        i = i + 1;
    }
    assert(all.take(items@.len() as int) =~= all);
    out
}

/// Take our hook out of the settings; none where there is nothing to remove.
pub fn unmerge_hook(agent: &Agent, settings: Value) -> (r: Option<Value>)
    ensures
        tree_option(r) == settings_unmerged(agent@, value_tree(settings)),
{
    let mut obj = match open_value(settings) {
        Shape::Record(obj) => obj,
        _ => {
            return None;
        },
    };
    let mut hooks = match map_get(&obj, "hooks") {
        None => {
            return None;
        },
        Some(hooks) => match open_value(hooks) {
            Shape::Record(hooks) => hooks,
            _ => {
                return None;
            },
        },
    };
    let items = match map_get(&hooks, "SessionStart") {
        None => {
            return None;
        },
        Some(items) => match open_value(items) {
            Shape::List(items) => items,
            _ => {
                return None;
            },
        },
    };
    let left = remove_ours(agent, &items);
    proof {
        lemma_without_ours(agent@, trees(items@));
        assert(trees(items@).len() == items@.len());
        assert(trees(left@).len() == left@.len());
    }
    if left.len() == items.len() {
        return None;
    }
    map_insert(&mut hooks, "SessionStart".to_owned(), make_value(Parts::List(left)));
    map_insert(&mut obj, "hooks".to_owned(), make_value(Parts::Record(hooks)));
    Some(make_value(Parts::Record(obj)))
}

// ─── Laws ────────────────────────────────────────────────────────────

/// The entries under SessionStart in the settings.
pub open spec fn sessions(settings: JsonView) -> Seq<JsonView> {
    match crate::json::field_in(field_of(settings, "hooks"@), "SessionStart"@) {
        Some(JsonView::List(items)) => items,
        _ => Seq::empty(),
    }
}

proof fn lemma_hook_entry_is_ours(agent: AgentView)
    ensures
        our_entry(agent, hook_entry(agent)),
{
    let hook = JsonView::Record(
        seq![
            ("type"@, JsonView::Text("command"@)),
            ("command"@, JsonView::Text(startup_command(agent))),
        ],
    );
    reveal_strlit("type");
    reveal_strlit("command");
    assert("type"@.len() != "command"@.len());
    crate::json::lemma_key_position_is(hook->Record_0, "command"@, 1);
    let found = field_of(hook_entry(agent), "hooks"@)->0->List_0;
    assert(found[0] == hook);
    assert(our_hook(agent, found[0]));
}

proof fn lemma_merged(agent: AgentView, settings: JsonView)
    requires
        settings_merged(agent, settings) is Ok,
    ensures
        ({
            let entries = settings->Record_0;
            let hooks: Entries = match lookup(entries, "hooks"@) {
                Some(JsonView::Record(hooks)) => hooks,
                _ => Seq::empty(),
            };
            let items = sessions(settings);
            let merged_hooks = with_entry(
                hooks,
                "SessionStart"@,
                JsonView::List(with_ours(agent, items)),
            );
            let merged = with_entry(entries, "hooks"@, JsonView::Record(merged_hooks));
            &&& settings_merged(agent, settings) == Ok::<JsonView, Seq<Text>>(
                JsonView::Record(merged),
            )
            &&& lookup(merged, "hooks"@) == Some(JsonView::Record(merged_hooks))
            &&& lookup(merged_hooks, "SessionStart"@) == Some(JsonView::List(with_ours(agent, items)))
        }),
{
    let entries = settings->Record_0;
    let hooks: Entries = match lookup(entries, "hooks"@) {
        Some(JsonView::Record(hooks)) => hooks,
        _ => Seq::empty(),
    };
    let items = sessions(settings);
    let list = JsonView::List(with_ours(agent, items));
    if lookup(entries, "hooks"@) is None {
        assert(lookup(hooks, "SessionStart"@) is None);
    }
    insert_sets_one_key(hooks, "SessionStart"@, list, "SessionStart"@);
    let merged_hooks = with_entry(hooks, "SessionStart"@, list);
    insert_sets_one_key(entries, "hooks"@, JsonView::Record(merged_hooks), "hooks"@);
}

/// After a merge one of the entries is ours, and those that were there are there
/// in their order; no other setting is touched.
pub proof fn merge_adds_only_our_hook(agent: AgentView, settings: JsonView, key: Text)
    requires
        settings_merged(agent, settings) is Ok,
    ensures
        sessions(settings_merged(agent, settings)->Ok_0) == with_ours(agent, sessions(settings)),
        has_ours(agent, sessions(settings_merged(agent, settings)->Ok_0)),
        key != "hooks"@ ==> field_of(settings_merged(agent, settings)->Ok_0, key) == field_of(
            settings,
            key,
        ),
{
    lemma_merged(agent, settings);
    lemma_hook_entry_is_ours(agent);
    let items = sessions(settings);
    if !has_ours(agent, items) {
        assert(with_ours(agent, items)[items.len() as int] == hook_entry(agent));
    }
    let merged = settings_merged(agent, settings)->Ok_0->Record_0;
    let hooks = lookup(merged, "hooks"@)->0;
    insert_sets_one_key(settings->Record_0, "hooks"@, hooks, key);
}

proof fn lemma_same_entry(entries: Entries, key: Text)
    requires
        lookup(entries, key) is Some,
    ensures
        with_entry(entries, key, lookup(entries, key)->0) == entries,
{
    crate::json::lemma_key_position(entries, key);
    assert(with_entry(entries, key, lookup(entries, key)->0) =~= entries);
}

/// Merging twice is merging once.
pub proof fn merge_is_idempotent(agent: AgentView, settings: JsonView)
    requires
        settings_merged(agent, settings) is Ok,
    ensures
        settings_merged(agent, settings_merged(agent, settings)->Ok_0) == settings_merged(
            agent,
            settings,
        ),
{
    let once = settings_merged(agent, settings)->Ok_0;
    lemma_merged(agent, settings);
    merge_adds_only_our_hook(agent, settings, "hooks"@);
    let entries = once->Record_0;
    let hooks = lookup(entries, "hooks"@)->0->Record_0;
    lemma_same_entry(hooks, "SessionStart"@);
    lemma_same_entry(entries, "hooks"@);
}

/// Removing undoes a merge: the entries that are left under SessionStart are
/// those that were there and are not ours, and no other setting is touched.
pub proof fn remove_undoes_merge(agent: AgentView, settings: JsonView, key: Text)
    requires
        settings_merged(agent, settings) is Ok,
    ensures
        ({
            let undone = settings_unmerged(agent, settings_merged(agent, settings)->Ok_0);
            &&& undone is Some
            &&& sessions(undone->0) == without_ours(agent, sessions(settings))
            &&& !has_ours(agent, sessions(settings)) ==> sessions(undone->0) == sessions(settings)
            &&& key != "hooks"@ ==> field_of(undone->0, key) == field_of(settings, key)
        }),
{
    let merged = settings_merged(agent, settings)->Ok_0;
    lemma_merged(agent, settings);
    lemma_hook_entry_is_ours(agent);
    merge_adds_only_our_hook(agent, settings, key);
    let items = sessions(settings);
    let entries = merged->Record_0;
    let hooks = lookup(entries, "hooks"@)->0->Record_0;
    lemma_without_ours(agent, items);
    if !has_ours(agent, items) {
        assert(items.push(hook_entry(agent)).drop_last() =~= items);
        assert(without_ours(agent, with_ours(agent, items)) == without_ours(agent, items));
    }
    let list = JsonView::List(without_ours(agent, with_ours(agent, items)));
    insert_sets_one_key(hooks, "SessionStart"@, list, "SessionStart"@);
    let left = with_entry(hooks, "SessionStart"@, list);
    insert_sets_one_key(entries, "hooks"@, JsonView::Record(left), "hooks"@);
    insert_sets_one_key(entries, "hooks"@, JsonView::Record(left), key);
}

} // verus!
