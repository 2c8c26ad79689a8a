//! The entry of the subcontext MCP server in `.mcp.json`, and in the configuration
//! that the agent harness keeps in the home directory.

use serde_json::Value;
use vstd::prelude::*;

use crate::backend::{write_text, Backend};
use crate::environment::{home_of, Env, EnvView};
use crate::failure::{context, contextual, fail, failed, outcome, wrapped, Failure, Outcome};
use crate::json::{
    document, document_text, field_in, field_of, insert_sets_one_key, json_parsed, key_position,
    lemma_key_position, lemma_key_position_is, list1, list2, lookup, make_value, map_entries,
    map_get, map_insert, map_is_empty, map_new, map_remove, open_value, parse_json, record3,
    text_value, tree_option, value_tree, with_entry, without_entry, Entries, JsonView, Parts, Shape,
};
use crate::paths::{join_path, path_join};
use crate::settings::tree_outcome;
use crate::text::{cat, cat3, trim, trimmed, Text};
use crate::world::World;

verus! {

/// The entry of the server.
pub open spec fn server_tree() -> JsonView {
    JsonView::Record(
        seq![
            ("command"@, JsonView::Text("git"@)),
            (
                "args"@,
                JsonView::List(seq![JsonView::Text("subcontext"@), JsonView::Text("mcp"@)]),
            ),
        ],
    )
}

/// The MCP server entry that subcontext injects into `.mcp.json`.
pub fn server_entry() -> (r: Value)
    ensures
        value_tree(r) == server_tree(),
{
    let mut map = map_new();
    map_insert(&mut map, "command".to_owned(), text_value("git"));
    let ghost first = map_entries(map);
    map_insert(
        &mut map,
        "args".to_owned(),
        list2(text_value("subcontext"), text_value("mcp")),
    );
    proof {
        reveal_strlit("command");
        reveal_strlit("args");
        assert("command"@.len() != "args"@.len());
        assert(first =~= seq![("command"@, JsonView::Text("git"@))]);
        lemma_key_position_is(first, "args"@, 1);
        assert(map_entries(map) =~= server_tree()->Record_0);
    }
    make_value(Parts::Record(map))
}

/// The entry of the server for every project: the program at `exe`, over stdio.
pub open spec fn global_server_tree(exe: Text) -> JsonView {
    JsonView::Record(
        seq![
            ("type"@, JsonView::Text("stdio"@)),
            ("command"@, JsonView::Text(exe)),
            ("args"@, JsonView::List(seq![JsonView::Text("mcp"@)])),
        ],
    )
}

/// The MCP server entry for every project.
pub fn global_server_entry(exe: &str) -> (r: Value)
    ensures
        value_tree(r) == global_server_tree(exe@),
{
    proof {
        reveal_strlit("type");
        reveal_strlit("command");
        reveal_strlit("args");
        assert("type"@[0] != "args"@[0]);
    }
    record3(
        "type",
        text_value("stdio"),
        "command",
        text_value(exe),
        "args",
        list1(text_value("mcp")),
    )
}

// ─── Merging ─────────────────────────────────────────────────────────

/// The servers with `entry` as ours among them; one of that name that is there
/// stays as it is.
pub open spec fn servers_with(servers: Entries, entry: JsonView) -> Entries {
    if lookup(servers, "subcontext"@) is Some {
        servers
    } else {
        with_entry(servers, "subcontext"@, entry)
    }
}

/// The configuration in `file` with `entry` as our server.
pub open spec fn config_with(config: JsonView, file: Text, entry: JsonView) -> Outcome<JsonView> {
    match config {
        JsonView::Record(entries) => match lookup(entries, "mcpServers"@) {
            None => Ok(
                JsonView::Record(
                    with_entry(
                        entries,
                        "mcpServers"@,
                        JsonView::Record(servers_with(Seq::empty(), entry)),
                    ),
                ),
            ),
            Some(JsonView::Record(servers)) => Ok(
                JsonView::Record(
                    with_entry(
                        entries,
                        "mcpServers"@,
                        JsonView::Record(servers_with(servers, entry)),
                    ),
                ),
            ),
            Some(_) => Err(failed("mcpServers field is not an object"@)),
        },
        _ => Err(failed(file + " root is not an object"@)),
    }
}

/// Add a server as ours to the configuration in `file`.
fn merge_entry(config: Value, file: &str, entry: Value) -> (r: Result<Value, Failure>)
    ensures
        tree_outcome(r) == config_with(value_tree(config), file@, value_tree(entry)),
{
    let mut obj = match open_value(config) {
        Shape::Record(obj) => obj,
        _ => {
            let message = cat(file, " root is not an object");
            return Err(fail(message.as_str()));
        },
    };
    let mut servers = match map_get(&obj, "mcpServers") {
        None => map_new(),
        Some(servers) => match open_value(servers) {
            Shape::Record(servers) => servers,
            _ => {
                return Err(fail("mcpServers field is not an object"));
            },
        },
    };
    // Only insert if missing; don't clobber user edits.
    if map_get(&servers, "subcontext").is_none() {
        map_insert(&mut servers, "subcontext".to_owned(), entry);
    }
    map_insert(&mut obj, "mcpServers".to_owned(), make_value(Parts::Record(servers)));
    Ok(make_value(Parts::Record(obj)))
}

/// Add our server to a configuration.
pub fn merge_server(config: Value) -> (r: Result<Value, Failure>)
    ensures
        tree_outcome(r) == config_with(value_tree(config), ".mcp.json"@, server_tree()),
{
    merge_entry(config, ".mcp.json", server_entry())
}

/// What the content of `file` is read as.
pub open spec fn parsed_in(content: Text, file: Text) -> Outcome<JsonView> {
    match json_parsed(content) {
        Ok(tree) => Ok(tree),
        Err(e) => Err(wrapped("failed to parse "@ + file, failed(e))),
    }
}

/// Read the content of `file`.
fn parse_in(content: &str, file: &str) -> (r: Result<Value, Failure>)
    ensures
        tree_outcome(r) == parsed_in(content@, file@),
{
    match parse_json(content) {
        Ok(v) => Ok(v),
        Err(e) => {
            let message = cat("failed to parse ", file);
            Err(fail(e.as_str()).within(message.as_str()))
        },
    }
}

/// Read the content of `.mcp.json`.
pub fn parse_config(content: &str) -> (r: Result<Value, Failure>)
    ensures
        tree_outcome(r) == parsed_in(content@, ".mcp.json"@),
{
    parse_in(content, ".mcp.json")
}

/// Where the configuration is.
pub open spec fn mcp_path(root: Text) -> Text {
    path_join(root, ".mcp.json"@)
}

/// Reading the configuration at a path, which messages call `file`, or starting
/// fresh: where there is none, and where it is blank.
pub open spec fn read_at_run(w: World, path: Text, file: Text) -> (World, Outcome<JsonView>) {
    let (w, there) = w.path_exists(path);
    if !there {
        (w, Ok(JsonView::Record(Seq::empty())))
    } else {
        let (w, content) = w.read(path);
        match contextual(content, "failed to read "@ + file) {
            Err(e) => (w, Err(e)),
            Ok(content) => if trimmed(content).len() == 0 {
                (w, Ok(JsonView::Record(Seq::empty())))
            } else {
                (w, parsed_in(content, file))
            },
        }
    }
}

/// Merging a server as ours into the configuration at a path, which messages call
/// `file`.
pub open spec fn merge_at_run(w: World, path: Text, file: Text, entry: JsonView) -> (
    World,
    Outcome<()>,
) {
    let (w, config) = read_at_run(w, path, file);
    match config {
        Err(e) => (w, Err(e)),
        Ok(config) => match config_with(config, file, entry) {
            Err(e) => (w, Err(e)),
            Ok(config) => {
                let (w, written) = w.write(path, document_text(config));
                match contextual(written, "failed to write "@ + file) {
                    Err(e) => (w, Err(e)),
                    Ok(_) => (
                        w.note("[subcontext] Configured MCP server in "@ + file + "."@),
                        Ok(()),
                    ),
                }
            },
        },
    }
}

/// Read the configuration at a path, or start fresh.
fn read_at<B: Backend>(backend: &mut B, path: &str, file: &str) -> (r: Result<Value, Failure>)
    ensures
        (final(backend).world(), tree_outcome(r)) == read_at_run(
            old(backend).world(),
            path@,
            file@,
        ),
{
    if !backend.path_exists(path) {
        return Ok(make_value(Parts::Record(map_new())));
    }
    let message = cat("failed to read ", file);
    let content = context(backend.read_to_string(path), message.as_str())?;
    if trim(content.as_str()).as_str().is_empty() {
        return Ok(make_value(Parts::Record(map_new())));
    }
    parse_in(content.as_str(), file)
}

/// Merge a server as ours into the configuration at a path.
fn merge_at<B: Backend>(backend: &mut B, path: &str, file: &str, entry: Value) -> (r: Result<
    (),
    Failure,
>)
    ensures
        (final(backend).world(), outcome(r)) == merge_at_run(
            old(backend).world(),
            path@,
            file@,
            value_tree(entry),
        ),
{
    let config = read_at(backend, path, file)?;
    let config = merge_entry(config, file, entry)?;
    let formatted = document(&config);
    let message = cat("failed to write ", file);
    context(write_text(backend, path, formatted.as_str()), message.as_str())?;
    let line = cat3("[subcontext] Configured MCP server in ", file, ".");
    backend.note(line.as_str());
    Ok(())
}

/// Merge the subcontext MCP server entry into `.mcp.json` at the project root.
/// Creates the file if it doesn't exist. Idempotent.
pub fn merge_mcp_config<B: Backend>(backend: &mut B, root: &str) -> (r: Result<(), Failure>)
    ensures
        (final(backend).world(), outcome(r)) == merge_at_run(
            old(backend).world(),
            mcp_path(root@),
            ".mcp.json"@,
            server_tree(),
        ),
{
    let path = join_path(root, ".mcp.json");
    merge_at(backend, path.as_str(), ".mcp.json", server_entry())
}

/// Registering the server for every project: in the configuration that the agent
/// harness keeps in the home directory.
pub open spec fn install_global_run(w: World, env: EnvView) -> (World, Outcome<()>) {
    match home_of(env) {
        None => (w, Err(failed("cannot determine home directory"@))),
        Some(home) => {
            let (w, exe) = w.current_exe();
            match exe {
                Err(e) => (w, Err(e)),
                Ok(exe) => merge_at_run(
                    w,
                    path_join(home, env.agent.config_file()),
                    "~/"@ + env.agent.config_file(),
                    global_server_tree(exe),
                ),
            }
        },
    }
}

/// Install the MCP server into the configuration that the agent harness keeps in
/// the home directory. Creates the file if it doesn't exist. Idempotent.
pub fn install_global<B: Backend>(backend: &mut B, env: &Env) -> (r: Result<(), Failure>)
    ensures
        (final(backend).world(), outcome(r)) == install_global_run(old(backend).world(), env@),
{
    let home = match env.home_dir() {
        Some(home) => home,
        None => {
            return Err(fail("cannot determine home directory"));
        },
    };
    let exe = backend.current_exe()?;
    let name = env.agent.config_file();
    let path = join_path(home.as_str(), name.as_str());
    let file = cat("~/", name.as_str());
    merge_at(backend, path.as_str(), file.as_str(), global_server_entry(exe.as_str()))
}

// ─── Removing ────────────────────────────────────────────────────────

/// The configuration without our server, and without the key for servers where
/// none is left: none where our server is not in it.
pub open spec fn config_unmerged(config: JsonView) -> Option<JsonView> {
    match config {
        JsonView::Record(entries) => match lookup(entries, "mcpServers"@) {
            Some(JsonView::Record(servers)) => if lookup(servers, "subcontext"@) is None {
                None
            } else {
                let left = without_entry(servers, "subcontext"@);
                if left.len() == 0 {
                    Some(JsonView::Record(without_entry(entries, "mcpServers"@)))
                } else {
                    Some(
                        JsonView::Record(
                            with_entry(entries, "mcpServers"@, JsonView::Record(left)),
                        ),
                    )
                }
            },
            _ => None,
        },
        _ => None,
    }
}

/// Take our server out of a configuration; none where it is not in it.
pub fn unmerge_server(config: Value) -> (r: Option<Value>)
    ensures
        tree_option(r) == config_unmerged(value_tree(config)),
{
    let mut obj = match open_value(config) {
        Shape::Record(obj) => obj,
        _ => {
            return None;
        },
    };
    let mut servers = match map_get(&obj, "mcpServers") {
        None => {
            return None;
        },
        Some(servers) => match open_value(servers) {
            Shape::Record(servers) => servers,
            _ => {
                return None;
            },
        },
    };
    if map_remove(&mut servers, "subcontext").is_none() {
        return None;
    }
    // If no servers remain, drop the key.

    if map_is_empty(&servers) {
        let _ = map_remove(&mut obj, "mcpServers");
    } else {
        map_insert(&mut obj, "mcpServers".to_owned(), make_value(Parts::Record(servers)));
    }
    Some(make_value(Parts::Record(obj)))
}

/// Is it an object without entries?
pub open spec fn is_bare_object(tree: JsonView) -> bool {
    tree is Record && tree->Record_0.len() == 0
}

/// Writing back what is left of the configuration; a file that would hold
/// nothing is removed.
pub open spec fn write_left_run(w: World, root: Text, config: JsonView) -> (World, Outcome<()>) {
    if is_bare_object(config) {
        let (w, removed) = w.remove_file(mcp_path(root));
        match contextual(removed, "failed to remove empty .mcp.json"@) {
            Err(e) => (w, Err(e)),
            Ok(_) => (
                w.note("[subcontext] Removed .mcp.json (no servers remained)."@),
                Ok(()),
            ),
        }
    } else {
        let (w, written) = w.write(mcp_path(root), document_text(config));
        match contextual(written, "failed to write .mcp.json"@) {
            Err(e) => (w, Err(e)),
            Ok(_) => (
                w.note("[subcontext] Removed subcontext MCP server from .mcp.json."@),
                Ok(()),
            ),
        }
    }
}

/// Removing our server from the configuration of a repository.
pub open spec fn remove_run(w: World, root: Text) -> (World, Outcome<()>) {
    let (w, there) = w.path_exists(mcp_path(root));
    if !there {
        (w, Ok(()))
    } else {
        let (w, content) = w.read(mcp_path(root));
        match contextual(content, "failed to read .mcp.json"@) {
            Err(e) => (w, Err(e)),
            Ok(content) => if trimmed(content).len() == 0 {
                (w, Ok(()))
            } else {
                match parsed_in(content, ".mcp.json"@) {
                    Err(e) => (w, Err(e)),
                    Ok(config) => match config_unmerged(config) {
                        None => (w, Ok(())),
                        Some(config) => write_left_run(w, root, config),
                    },
                }
            },
        }
    }
}

/// Is the value an object without entries?
fn is_empty_object(v: &Value) -> (r: bool)
    ensures
        r == is_bare_object(value_tree(*v)),
{
    match open_value(crate::json::copy_value(v)) {
        Shape::Record(map) => map_is_empty(&map),
        _ => false,
    }
}

/// Remove the subcontext MCP server entry from `.mcp.json`.
/// Removes the file entirely if it becomes empty.
pub fn remove_mcp_config<B: Backend>(backend: &mut B, root: &str) -> (r: Result<(), Failure>)
    ensures
        (final(backend).world(), outcome(r)) == remove_run(old(backend).world(), root@),
{
    let path = join_path(root, ".mcp.json");
    if !backend.path_exists(path.as_str()) {
        return Ok(());
    }
    let content = context(backend.read_to_string(path.as_str()), "failed to read .mcp.json")?;
    if trim(content.as_str()).as_str().is_empty() {
        return Ok(());
    }
    let config = parse_config(content.as_str())?;
    let config = match unmerge_server(config) {
        None => {
            return Ok(());
        },
        Some(config) => config,
    };

    // If the file is now an empty object, remove it entirely so we don't
    // leave behind an unused file in the host repo.
    if is_empty_object(&config) {
        context(backend.remove_file(path.as_str()), "failed to remove empty .mcp.json")?;
        backend.note("[subcontext] Removed .mcp.json (no servers remained).");
    } else {
        let formatted = document(&config);
        context(
            write_text(backend, path.as_str(), formatted.as_str()),
            "failed to write .mcp.json",
        )?;
        backend.note("[subcontext] Removed subcontext MCP server from .mcp.json.");
    }
    Ok(())
}

// ─── Laws ────────────────────────────────────────────────────────────

/// The server of a name in a configuration.
pub open spec fn server_in(config: JsonView, name: Text) -> Option<JsonView> {
    field_in(field_of(config, "mcpServers"@), name)
}

/// A merge adds our server and nothing else: other servers and settings keep
/// their values, and so does a server of our name that the user has edited.
pub proof fn merge_adds_only_our_server(
    config: JsonView,
    file: Text,
    entry: JsonView,
    name: Text,
    key: Text,
)
    requires
        config_with(config, file, entry) is Ok,
    ensures
        server_in(config_with(config, file, entry)->Ok_0, "subcontext"@) == (if server_in(
            config,
            "subcontext"@,
        ) is Some {
            server_in(config, "subcontext"@)
        } else {
            Some(entry)
        }),
        name != "subcontext"@ ==> server_in(config_with(config, file, entry)->Ok_0, name)
            == server_in(config, name),
        key != "mcpServers"@ ==> field_of(config_with(config, file, entry)->Ok_0, key) == field_of(
            config,
            key,
        ),
{
    let entries = config->Record_0;
    let servers: Entries = match lookup(entries, "mcpServers"@) {
        Some(JsonView::Record(servers)) => servers,
        _ => Seq::empty(),
    };
    if lookup(entries, "mcpServers"@) is None {
        assert(lookup(servers, name) is None);
        assert(lookup(servers, "subcontext"@) is None);
    }
    let now = JsonView::Record(servers_with(servers, entry));
    insert_sets_one_key(servers, "subcontext"@, entry, "subcontext"@);
    insert_sets_one_key(servers, "subcontext"@, entry, name);
    insert_sets_one_key(entries, "mcpServers"@, now, "mcpServers"@);
    insert_sets_one_key(entries, "mcpServers"@, now, key);
}

/// Merging twice is merging once.
pub proof fn merge_is_idempotent(config: JsonView, file: Text, entry: JsonView)
    requires
        config_with(config, file, entry) is Ok,
    ensures
        config_with(config_with(config, file, entry)->Ok_0, file, entry) == config_with(
            config,
            file,
            entry,
        ),
{
    merge_adds_only_our_server(config, file, entry, "subcontext"@, "mcpServers"@);
    let entries = config->Record_0;
    let servers: Entries = match lookup(entries, "mcpServers"@) {
        Some(JsonView::Record(servers)) => servers,
        _ => Seq::empty(),
    };
    let now = JsonView::Record(servers_with(servers, entry));
    let once = with_entry(entries, "mcpServers"@, now);
    insert_sets_one_key(entries, "mcpServers"@, now, "mcpServers"@);
    lemma_key_position(once, "mcpServers"@);
    assert(with_entry(once, "mcpServers"@, now) =~= once);
}

/// Removing undoes a merge: a configuration without our server, and whose
/// servers, where it has that key, are not empty, is what it was.
pub proof fn remove_undoes_merge(config: JsonView, file: Text, entry: JsonView)
    requires
        config_with(config, file, entry) is Ok,
        server_in(config, "subcontext"@) is None,
        field_of(config, "mcpServers"@) is Some ==> !is_bare_object(
            field_of(config, "mcpServers"@)->0,
        ),
    ensures
        config_unmerged(config_with(config, file, entry)->Ok_0) == Some(config),
{
    let entries = config->Record_0;
    let servers: Entries = match lookup(entries, "mcpServers"@) {
        Some(JsonView::Record(servers)) => servers,
        _ => Seq::empty(),
    };
    let added = servers_with(servers, entry);
    let now = JsonView::Record(added);
    let merged = with_entry(entries, "mcpServers"@, now);
    if lookup(entries, "mcpServers"@) is None {
        assert(lookup(servers, "subcontext"@) is None);
    }
    lemma_key_position(servers, "subcontext"@);
    insert_sets_one_key(servers, "subcontext"@, entry, "subcontext"@);
    lemma_key_position_is(added, "subcontext"@, servers.len() as int);
    assert(without_entry(added, "subcontext"@) =~= servers);
    insert_sets_one_key(entries, "mcpServers"@, now, "mcpServers"@);
    lemma_key_position(entries, "mcpServers"@);
    let at = key_position(entries, "mcpServers"@);
    lemma_key_position_is(merged, "mcpServers"@, at);
    if lookup(entries, "mcpServers"@) is None {
        assert(without_entry(merged, "mcpServers"@) =~= entries);
    } else {
        assert(with_entry(merged, "mcpServers"@, JsonView::Record(servers)) =~= entries);
    }
}

} // verus!
