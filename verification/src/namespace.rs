//! Nested namespace dictionaries for subcontext configs.
//!
//! Each subcontext (project, user, system) can store a `namespaces.json` file
//! on its config branch containing a nested dictionary mapping names to UUIDs:
//!
//! ```json
//! {
//!   "myproject": "aaaaaaaa-...",
//!   "tools": {
//!     "editor": "bbbbbbbb-...",
//!     "linter": "cccccccc-..."
//!   }
//! }
//! ```
//!
//! Leaf values are UUID strings; intermediate values are nested objects.
//! Names **must not** start with `.`: dot-prefixed names are reserved for
//! interpolation (`.project`, `.user`, `.uuid`).

use serde_json::{Map as JsonMap, Value};
use vstd::prelude::*;
use vstd::slice::slice_subrange;

use crate::backend::{write_text, Backend};
use crate::failure::{context, contextual, fail, failed, outcome, wrapped, Failure, Outcome};
use crate::json::{
    copy_map, copy_value, distinct_keys, document, document_text, entry_trees, insert_sets_one_key,
    is_readable, json_parsed, key_position, lemma_key_position, lemma_key_position_is, lookup,
    make_value, map_entries, map_get, map_insert, map_is_empty, map_list, map_new, map_remove,
    open_value, parse_json, remove_takes_one_key, text_value, tree_option, value_tree, with_entry,
    without_entry, Entries, JsonView, Parts, Shape,
};
use crate::order::{sort_pairs, sorted_pairs};
use crate::overlay::{ensure_parent, ensure_parent_run};
use crate::paths::{join_path, path_join};
use crate::text::{cat3, chars_of, Text};
use crate::world::World;

verus! {

pub const NAMESPACES_FILE: &'static str = "namespaces.json";

// ─── The file ────────────────────────────────────────────────────────

/// Where the namespace dictionary is.
pub open spec fn namespaces_path(dir: Text) -> Text {
    path_join(dir, NAMESPACES_FILE@)
}

/// What the file's text is read as.
pub open spec fn parsed_namespaces(content: Text) -> Outcome<Entries> {
    match json_parsed(content) {
        Err(e) => Err(wrapped("invalid JSON in namespaces.json"@, failed(e))),
        Ok(JsonView::Record(entries)) => Ok(entries),
        Ok(_) => Err(failed("namespaces.json must be a JSON object"@)),
    }
}

/// The view of a result that is a map.
pub open spec fn map_outcome(r: Result<JsonMap<String, Value>, Failure>) -> Outcome<Entries> {
    match r {
        Ok(m) => Ok(map_entries(m)),
        Err(e) => Err(e@),
    }
}

/// What the text of the file is read as.
pub fn parse_namespaces(content: &str) -> (r: Result<JsonMap<String, Value>, Failure>)
    ensures
        map_outcome(r) == parsed_namespaces(content@),
{
    match parse_json(content) {
        Err(e) => Err(fail(e.as_str()).within("invalid JSON in namespaces.json")),
        Ok(val) => match open_value(val) {
            Shape::Record(map) => Ok(map),
            _ => Err(fail("namespaces.json must be a JSON object")),
        },
    }
}

/// Reading the namespace dictionary of a config directory.
pub open spec fn read_run(w: World, dir: Text) -> (World, Outcome<Entries>) {
    let path = namespaces_path(dir);
    let (w, there) = w.path_exists(path);
    if !there {
        (w, Ok(Seq::empty()))
    } else {
        let (w, content) = w.read(path);
        match contextual(content, "failed to read namespaces.json"@) {
            Err(e) => (w, Err(e)),
            Ok(content) => (w, parsed_namespaces(content)),
        }
    }
}

/// Read the namespace dictionary from a config directory.
/// Returns an empty object if the file doesn't exist.
pub fn read_namespaces<B: Backend>(backend: &mut B, config_dir: &str) -> (r: Result<
    JsonMap<String, Value>,
    Failure,
>)
    ensures
        (final(backend).world(), map_outcome(r)) == read_run(old(backend).world(), config_dir@),
{
    let path = join_path(config_dir, NAMESPACES_FILE);
    if !backend.path_exists(path.as_str()) {
        return Ok(map_new());
    }
    let content = context(
        backend.read_to_string(path.as_str()),
        "failed to read namespaces.json",
    )?;
    parse_namespaces(content.as_str())
}

/// The text of the file for a dictionary.
pub open spec fn namespaces_text(entries: Entries) -> Text {
    document_text(JsonView::Record(entries))
}

/// Writing a namespace dictionary to a config directory.
pub open spec fn write_run(w: World, dir: Text, entries: Entries) -> (World, Outcome<()>) {
    let path = namespaces_path(dir);
    let (w, made) = ensure_parent_run(w, path);
    match made {
        Err(e) => (w, Err(e)),
        Ok(_) => {
            let (w, written) = w.write(path, namespaces_text(entries));
            (w, contextual(written, "failed to write namespaces.json"@))
        },
    }
}

/// Write the namespace dictionary to a config directory. A dictionary of names
/// and UUIDs is read back from what is written as it was.
pub fn write_namespaces<B: Backend>(
    backend: &mut B,
    config_dir: &str,
    ns: &JsonMap<String, Value>,
) -> (r: Result<(), Failure>)
    ensures
        (final(backend).world(), outcome(r)) == write_run(
            old(backend).world(),
            config_dir@,
            map_entries(*ns),
        ),
        is_readable(JsonView::Record(map_entries(*ns))) ==> parsed_namespaces(
            namespaces_text(map_entries(*ns)),
        ) == Ok::<Entries, Seq<Text>>(map_entries(*ns)),
{
    let path = join_path(config_dir, NAMESPACES_FILE);
    let content = document(&make_value(Parts::Record(copy_map(ns))));
    ensure_parent(backend, path.as_str())?;
    context(
        write_text(backend, path.as_str(), content.as_str()),
        "failed to write namespaces.json",
    )
}

// ─── Names ───────────────────────────────────────────────────────────

/// What is wrong with a name, if anything: it is empty, or begins with a dot.
pub open spec fn name_fault(name: Text) -> Option<Seq<Text>> {
    if name.len() == 0 {
        Some(failed("namespace name must not be empty"@))
    } else if name[0] == '.' {
        Some(
            failed(
                "namespace name '"@ + name
                    + "' must not start with '.' (reserved for interpolation)"@,
            ),
        )
    } else {
        None
    }
}

/// A check that found nothing, or a fault.
pub open spec fn checked(fault: Option<Seq<Text>>) -> Outcome<()> {
    match fault {
        None => Ok(()),
        Some(e) => Err(e),
    }
}

/// Validate a namespace name: must not be empty and must not start with '.'.
pub fn validate_name(name: &str) -> (r: Result<(), Failure>)
    ensures
        outcome(r) == checked(name_fault(name@)),
{
    let chars = chars_of(name);
    if chars.len() == 0 {
        return Err(fail("namespace name must not be empty"));
    }
    if chars[0] == '.' {
        let message = cat3(
            "namespace name '",
            name,
            "' must not start with '.' (reserved for interpolation)",
        );
        return Err(fail(message.as_str()));
    }
    Ok(())
}

/// What is wrong with the first name of a path that has a fault.
pub open spec fn path_fault(path: Seq<Text>) -> Option<Seq<Text>>
    decreases path.len(),
{
    if path.len() == 0 {
        None
    } else {
        match name_fault(path[0]) {
            Some(e) => Some(e),
            None => path_fault(path.skip(1)),
        }
    }
}

/// Validate all names of a path.
fn validate_path(key_path: &[&str]) -> (r: Result<(), Failure>)
    ensures
        outcome(r) == checked(path_fault(key_path.deep_view())),
{
    let ghost path = key_path.deep_view();
    let mut i: usize = 0;
    assert(path.skip(0) =~= path);
    while i < key_path.len()
        invariant
            i <= key_path@.len(),
            path == key_path.deep_view(),
            path_fault(path) == path_fault(path.skip(i as int)),
        decreases key_path@.len() - i,
    {
        assert(path.skip(i as int)[0] == key_path@[i as int]@);
        assert(path.skip(i as int).skip(1) =~= path.skip(i + 1));
        validate_name(key_path[i])?;
        i = i + 1;
    }
    Ok(())
}

// ─── Setting, removing, resolving ────────────────────────────────────

/// The dictionary with the path set to the UUID, groups made as needed.
pub open spec fn set_at(entries: Entries, path: Seq<Text>, uuid: Text) -> Outcome<Entries>
    decreases path.len(),
{
    if path.len() <= 1 {
        Ok(with_entry(entries, path[0], JsonView::Text(uuid)))
    } else {
        let key = path[0];
        let group = match lookup(entries, key) {
            None => Ok(Seq::empty()),
            Some(JsonView::Record(inner)) => Ok(inner),
            Some(JsonView::Text(_)) => Err(
                failed(
                    "cannot create nested key under '"@ + key
                        + "' — it is already mapped to a UUID"@,
                ),
            ),
            Some(_) => Err(failed("unexpected value type at '"@ + key + "' in namespace"@)),
        };
        match group {
            Err(e) => Err(e),
            Ok(inner) => match set_at(inner, path.skip(1), uuid) {
                Err(e) => Err(e),
                Ok(inner) => Ok(with_entry(entries, key, JsonView::Record(inner))),
            },
        }
    }
}

/// Setting a path: an empty path and a bad name are refused.
pub open spec fn set_result(entries: Entries, path: Seq<Text>, uuid: Text) -> Outcome<Entries> {
    if path.len() == 0 {
        Err(failed("namespace key path must not be empty"@))
    } else {
        match path_fault(path) {
            Some(e) => Err(e),
            None => set_at(entries, path, uuid),
        }
    }
}

/// The path behind its first name.
fn tail<'a>(path: &'a [&'a str]) -> (r: &'a [&'a str])
    requires
        path@.len() > 0,
    ensures
        r.deep_view() == path.deep_view().skip(1),
        r@.len() == path@.len() - 1,
{
    let r = slice_subrange(path, 1, path.len());
    assert(r.deep_view() =~= path.deep_view().skip(1));
    r
}

/// Set a path whose names are valid.
fn set_valid(ns: &mut JsonMap<String, Value>, key_path: &[&str], uuid: &str) -> (r: Result<
    (),
    Failure,
>)
    requires
        key_path@.len() > 0,
    ensures
        match set_at(map_entries(*old(ns)), key_path.deep_view(), uuid@) {
            Ok(entries) => r is Ok && map_entries(*final(ns)) == entries,
            Err(e) => outcome(r) == Err::<(), Seq<Text>>(e) && map_entries(*final(ns))
                == map_entries(*old(ns)),
        },
    decreases key_path@.len(),
{
    assert(key_path.deep_view()[0] == key_path@[0]@);
    if key_path.len() == 1 {
        map_insert(ns, key_path[0].to_owned(), text_value(uuid));
        return Ok(());
    }
    // Walk/create intermediate objects.

    let key = key_path[0];
    let mut inner = match map_get(ns, key) {
        None => map_new(),
        Some(entry) => match open_value(entry) {
            Shape::Record(inner) => inner,
            Shape::Text(_) => {
                let message = cat3(
                    "cannot create nested key under '",
                    key,
                    "' — it is already mapped to a UUID",
                );
                return Err(fail(message.as_str()));
            },
            _ => {
                let message = cat3("unexpected value type at '", key, "' in namespace");
                return Err(fail(message.as_str()));
            },
        },
    };
    set_valid(&mut inner, tail(key_path), uuid)?;
    map_insert(ns, key.to_owned(), make_value(Parts::Record(inner)));
    Ok(())
}

/// Set a value in the namespace dictionary at a given dot-separated key path.
///
/// `key_path` is a slice of name segments, e.g. `["tools", "editor"]`.
/// The final segment maps to `uuid`. Intermediate segments create nested
/// objects as needed. Where it fails, the dictionary stays as it was.
pub fn set_namespace(ns: &mut JsonMap<String, Value>, key_path: &[&str], uuid: &str) -> (r: Result<
    (),
    Failure,
>)
    ensures
        match set_result(map_entries(*old(ns)), key_path.deep_view(), uuid@) {
            Ok(entries) => r is Ok && map_entries(*final(ns)) == entries,
            Err(e) => outcome(r) == Err::<(), Seq<Text>>(e) && map_entries(*final(ns))
                == map_entries(*old(ns)),
        },
{
    if key_path.len() == 0 {
        return Err(fail("namespace key path must not be empty"));
    }
    validate_path(key_path)?;
    set_valid(ns, key_path, uuid)
}

/// The dictionary without the path, and the value that was there. Groups that
/// are left empty go too.
pub open spec fn removed_at(entries: Entries, path: Seq<Text>) -> (Entries, Option<JsonView>)
    decreases path.len(),
{
    let key = path[0];
    if path.len() <= 1 {
        (without_entry(entries, key), lookup(entries, key))
    } else {
        match lookup(entries, key) {
            Some(JsonView::Record(inner)) => {
                let (inner, value) = removed_at(inner, path.skip(1));
                if inner.len() == 0 {
                    (without_entry(entries, key), value)
                } else {
                    (with_entry(entries, key, JsonView::Record(inner)), value)
                }
            },
            _ => (entries, None),
        }
    }
}

/// Remove a path that is not empty.
fn remove_valid(ns: &mut JsonMap<String, Value>, key_path: &[&str]) -> (r: Option<Value>)
    requires
        key_path@.len() > 0,
    ensures
        (map_entries(*final(ns)), tree_option(r)) == removed_at(
            map_entries(*old(ns)),
            key_path.deep_view(),
        ),
    decreases key_path@.len(),
{
    assert(key_path.deep_view()[0] == key_path@[0]@);
    let key = key_path[0];
    if key_path.len() == 1 {
        return map_remove(ns, key);
    }
    match map_get(ns, key) {
        Some(entry) => match open_value(entry) {
            Shape::Record(inner) => {
                let mut inner = inner;
                let result = remove_valid(&mut inner, tail(key_path));
                // Clean up empty intermediate objects.
                if map_is_empty(&inner) {
                    let _ = map_remove(ns, key);
                } else {
                    map_insert(ns, key.to_owned(), make_value(Parts::Record(inner)));
                }
                result
            },
            _ => None,
        },
        None => None,
    }
}

/// The view of a removal.
pub open spec fn value_outcome(r: Result<Option<Value>, Failure>) -> Outcome<Option<JsonView>> {
    match r {
        Ok(v) => Ok(tree_option(v)),
        Err(e) => Err(e@),
    }
}

/// Remove a key from the namespace dictionary at a given path.
/// Returns the removed value, if any.
pub fn remove_namespace(ns: &mut JsonMap<String, Value>, key_path: &[&str]) -> (r: Result<
    Option<Value>,
    Failure,
>)
    ensures
        if key_path@.len() == 0 {
            value_outcome(r) == Err::<Option<JsonView>, Seq<Text>>(
                failed("namespace key path must not be empty"@),
            ) && map_entries(*final(ns)) == map_entries(*old(ns))
        } else {
            let (entries, value) = removed_at(map_entries(*old(ns)), key_path.deep_view());
            value_outcome(r) == Ok::<Option<JsonView>, Seq<Text>>(value) && map_entries(*final(ns))
                == entries
        },
{
    if key_path.len() == 0 {
        return Err(fail("namespace key path must not be empty"));
    }
    Ok(remove_valid(ns, key_path))
}

/// The UUID that a path leads to, with what is left of the path behind it.
pub open spec fn resolved(entries: Entries, path: Seq<Text>) -> Outcome<(Text, Seq<Text>)>
    decreases path.len(),
{
    if path.len() == 0 {
        Err(failed("empty path in namespace resolution"@))
    } else {
        let key = path[0];
        match lookup(entries, key) {
            Some(JsonView::Text(uuid)) => Ok((uuid, path.skip(1))),
            Some(JsonView::Record(inner)) => if path.len() == 1 {
                Err(
                    failed(
                        "'"@ + key + "' is a namespace group, not a UUID — path is incomplete"@,
                    ),
                )
            } else {
                resolved(inner, path.skip(1))
            },
            Some(_) => Err(failed("unexpected value type at '"@ + key + "' in namespace"@)),
            None => Err(failed("'"@ + key + "' not found in namespace"@)),
        }
    }
}

/// The view of a resolution.
pub open spec fn resolution<'a>(r: Result<(String, &'a [&'a str]), Failure>) -> Outcome<
    (Text, Seq<Text>),
> {
    match r {
        Ok(found) => Ok((found.0@, found.1.deep_view())),
        Err(e) => Err(e@),
    }
}

/// Resolve a path through the namespace dictionary.
///
/// Walks the nested dictionary consuming segments. When a leaf UUID string is
/// found, returns `(uuid, remaining_segments)`.
///
/// For example, given namespace `{"tools": {"editor": "abc-123"}}` and path
/// segments `["tools", "editor", "some-task"]`, returns `("abc-123", ["some-task"])`.
pub fn resolve_namespace<'a>(ns: &JsonMap<String, Value>, segments: &'a [&'a str]) -> (r: Result<
    (String, &'a [&'a str]),
    Failure,
>)
    ensures
        resolution(r) == resolved(map_entries(*ns), segments.deep_view()),
    decreases segments@.len(),
{
    if segments.len() == 0 {
        return Err(fail("empty path in namespace resolution"));
    }
    assert(segments.deep_view()[0] == segments@[0]@);
    let key = segments[0];
    match map_get(ns, key) {
        Some(entry) => match open_value(entry) {
            Shape::Text(uuid) => Ok((uuid, tail(segments))),
            Shape::Record(inner) => {
                if segments.len() == 1 {
                    let message = cat3(
                        "'",
                        key,
                        "' is a namespace group, not a UUID — path is incomplete",
                    );
                    return Err(fail(message.as_str()));
                }
                resolve_namespace(&inner, tail(segments))
            },
            _ => {
                let message = cat3("unexpected value type at '", key, "' in namespace");
                Err(fail(message.as_str()))
            },
        },
        None => {
            let message = cat3("'", key, "' not found in namespace");
            Err(fail(message.as_str()))
        },
    }
}

// ─── Listing ─────────────────────────────────────────────────────────

/// The full name of a key.
pub open spec fn full_key(prefix: Text, key: Text) -> Text {
    if prefix.len() == 0 {
        key
    } else {
        prefix + "/"@ + key
    }
}

/// The names and UUIDs of the entries, group by group, each group in order.
pub open spec fn collected(entries: Entries, prefix: Text) -> Seq<(Text, Text)>
    decreases entries, 0int,
{
    if entries.len() == 0 {
        Seq::empty()
    } else {
        let front = collected(entries.drop_last(), prefix);
        let name = full_key(prefix, entries[entries.len() - 1].0);
        match entries[entries.len() - 1].1 {
            JsonView::Text(uuid) => front.push((name, uuid)),
            JsonView::Record(inner) => front + flattened(inner, name),
            _ => front,
        }
    }
}

/// The names and UUIDs of the entries, sorted by name.
pub open spec fn flattened(entries: Entries, prefix: Text) -> Seq<(Text, Text)>
    decreases entries, 1int,
{
    sorted_pairs(collected(entries, prefix))
}

/// List all entries in the namespace (flattened to key-path → uuid).
pub fn flatten_namespaces(ns: &JsonMap<String, Value>, prefix: &str) -> (r: Vec<(String, String)>)
    ensures
        r.deep_view() == flattened(map_entries(*ns), prefix@),
    decreases map_entries(*ns),
{
    let ghost entries = map_entries(*ns);
    let list = map_list(copy_map(ns));
    let mut result: Vec<(String, String)> = Vec::new();
    let mut i: usize = 0;
    assert(result.deep_view() =~= collected(entries.take(0), prefix@));
    while i < list.len()
        invariant
            i <= list@.len(),
            entries == map_entries(*ns),
            entry_trees(list@) == entries,
            result.deep_view() == collected(entries.take(i as int), prefix@),
        decreases list@.len() - i,
    {
        let ghost before = result.deep_view();
        let ghost now = entries.take(i + 1);
        proof {
            assert(now.drop_last() =~= entries.take(i as int));
            assert(now[now.len() - 1] == entries[i as int]);
            assert(entries[i as int] == (list@[i as int].0@, value_tree(list@[i as int].1)));
        }
        let key = list[i].0.as_str();
        let name = if prefix.is_empty() {
            key.to_owned()
        } else {
            cat3(prefix, "/", key)
        };
        match open_value(copy_value(&list[i].1)) {
            Shape::Text(uuid) => {
                let ghost pair = (name@, uuid@);
                result.push((name, uuid));
                assert(result.deep_view() =~= before.push(pair));
            },
            Shape::Record(inner) => {
                assert(entries[i as int].1 == JsonView::Record(map_entries(inner)));
                assert(decreases_to!(entries => entries[i as int]));
                assert(decreases_to!(entries[i as int] => entries[i as int].1));
                assert(decreases_to!(entries[i as int].1 => entries[i as int].1->Record_0));
                let mut more = flatten_namespaces(&inner, name.as_str());
                let ghost found = more.deep_view();
                result.append(&mut more);
                assert(result.deep_view() =~= before + found);
            },
            _ => {},
        }
        i = i + 1;
    }
    assert(entries.take(list@.len() as int) =~= entries);
    sort_pairs(result)
}

// ─── Laws ────────────────────────────────────────────────────────────

/// Is the name empty, or does it begin with a dot?
pub open spec fn is_bad_name(name: Text) -> bool {
    name.len() == 0 || name[0] == '.'
}

/// A path is refused for its names just where one of them is empty or begins
/// with a dot.
pub proof fn only_bad_names_are_refused(path: Seq<Text>)
    ensures
        path_fault(path) is Some <==> exists|i: int|
            0 <= i < path.len() && is_bad_name(#[trigger] path[i]),
    decreases path.len(),
{
    if path.len() > 0 {
        let rest = path.skip(1);
        only_bad_names_are_refused(rest);
        assert forall|i: int| 0 <= i < rest.len() implies #[trigger] rest[i] == path[i + 1] by {}
        assert(is_bad_name(path[0]) <==> name_fault(path[0]) is Some);
        if path_fault(path) is Some && !is_bad_name(path[0]) {
            let i = choose|i: int| 0 <= i < rest.len() && is_bad_name(#[trigger] rest[i]);
            assert(is_bad_name(path[i + 1]));
        }
        if exists|i: int| 0 <= i < path.len() && is_bad_name(#[trigger] path[i]) {
            let i = choose|i: int| 0 <= i < path.len() && is_bad_name(#[trigger] path[i]);
            if i > 0 {
                assert(is_bad_name(rest[i - 1]));
            }
        }
    }
}

/// A name that was set resolves to its UUID, with the rest of the path behind
/// it.
pub proof fn set_then_resolve(entries: Entries, path: Seq<Text>, rest: Seq<Text>, uuid: Text)
    requires
        path.len() > 0,
        set_at(entries, path, uuid) is Ok,
    ensures
        resolved(set_at(entries, path, uuid)->Ok_0, path + rest) == Ok::<
            (Text, Seq<Text>),
            Seq<Text>,
        >((uuid, rest)),
    decreases path.len(),
{
    let now = set_at(entries, path, uuid)->Ok_0;
    let all = path + rest;
    let key = path[0];
    assert(all[0] == key);
    assert(all.skip(1) =~= path.skip(1) + rest);
    if path.len() == 1 {
        insert_sets_one_key(entries, key, JsonView::Text(uuid), key);
        assert(all.skip(1) =~= rest);
    } else {
        let group: Entries = match lookup(entries, key) {
            Some(JsonView::Record(inner)) => inner,
            _ => Seq::empty(),
        };
        let inner = set_at(group, path.skip(1), uuid)->Ok_0;
        set_then_resolve(group, path.skip(1), rest, uuid);
        insert_sets_one_key(entries, key, JsonView::Record(inner), key);
    }
}

/// Do the paths part before either ends?
pub open spec fn paths_part(a: Seq<Text>, b: Seq<Text>) -> bool
    decreases a.len(),
{
    a.len() > 0 && b.len() > 0 && (a[0] != b[0] || paths_part(a.skip(1), b.skip(1)))
}

/// Setting a name does not change what another resolves to: whatever resolves
/// before or after, along a path that parts from that of the name, resolves to
/// the same both times.
pub proof fn set_keeps_other_names(
    entries: Entries,
    path: Seq<Text>,
    uuid: Text,
    other: Seq<Text>,
)
    requires
        set_at(entries, path, uuid) is Ok,
        paths_part(path, other),
    ensures
        ({
            let before = resolved(entries, other);
            let after = resolved(set_at(entries, path, uuid)->Ok_0, other);
            before is Ok || after is Ok ==> before == after
        }),
    decreases path.len(),
{
    let key = path[0];
    if path.len() == 1 {
        if other[0] == key {
            assert(!paths_part(path.skip(1), other.skip(1)));
        }
        insert_sets_one_key(entries, key, JsonView::Text(uuid), other[0]);
    } else {
        let group: Entries = match lookup(entries, key) {
            Some(JsonView::Record(inner)) => inner,
            _ => Seq::empty(),
        };
        let inner = set_at(group, path.skip(1), uuid)->Ok_0;
        insert_sets_one_key(entries, key, JsonView::Record(inner), other[0]);
        if other[0] == key {
            assert(paths_part(path.skip(1), other.skip(1)));
            assert(other.len() > 1);
            set_keeps_other_names(group, path.skip(1), uuid, other.skip(1));
            if lookup(entries, key) is None {
                let tail = other.skip(1);
                assert(lookup(group, tail[0]) is None);
                assert(resolved(group, tail) is Err);
            }
        }
    }
}

/// Removing a name that was set gives its UUID.
pub proof fn set_then_remove(entries: Entries, path: Seq<Text>, uuid: Text)
    requires
        path.len() > 0,
        set_at(entries, path, uuid) is Ok,
    ensures
        removed_at(set_at(entries, path, uuid)->Ok_0, path).1 == Some(JsonView::Text(uuid)),
    decreases path.len(),
{
    let key = path[0];
    if path.len() == 1 {
        insert_sets_one_key(entries, key, JsonView::Text(uuid), key);
    } else {
        let group: Entries = match lookup(entries, key) {
            Some(JsonView::Record(inner)) => inner,
            _ => Seq::empty(),
        };
        let inner = set_at(group, path.skip(1), uuid)->Ok_0;
        set_then_remove(group, path.skip(1), uuid);
        insert_sets_one_key(entries, key, JsonView::Record(inner), key);
    }
}

/// Is the name free: does its path lead through groups that are not empty to
/// where nothing is?
pub open spec fn is_free(entries: Entries, path: Seq<Text>) -> bool
    decreases path.len(),
{
    path.len() > 0 && match lookup(entries, path[0]) {
        None => true,
        Some(JsonView::Record(inner)) => path.len() > 1 && inner.len() > 0 && is_free(
            inner,
            path.skip(1),
        ),
        Some(_) => false,
    }
}

/// A free name can be set, and removing it again gives back the dictionary as it
/// was, its order included.
pub proof fn remove_undoes_set(entries: Entries, path: Seq<Text>, uuid: Text)
    requires
        is_free(entries, path),
    ensures
        set_at(entries, path, uuid) is Ok,
        removed_at(set_at(entries, path, uuid)->Ok_0, path) == (
            entries,
            Some(JsonView::Text(uuid)),
        ),
    decreases path.len(),
{
    let key = path[0];
    lemma_key_position(entries, key);
    let at = key_position(entries, key);
    if path.len() == 1 {
        let now = with_entry(entries, key, JsonView::Text(uuid));
        insert_sets_one_key(entries, key, JsonView::Text(uuid), key);
        lemma_key_position_is(now, key, at);
        assert(without_entry(now, key) =~= entries);
    } else {
        let group: Entries = match lookup(entries, key) {
            Some(JsonView::Record(inner)) => inner,
            _ => Seq::empty(),
        };
        if lookup(entries, key) is None {
            assert(lookup(group, path.skip(1)[0]) is None);
        }
        remove_undoes_set(group, path.skip(1), uuid);
        let inner = set_at(group, path.skip(1), uuid)->Ok_0;
        let now = with_entry(entries, key, JsonView::Record(inner));
        insert_sets_one_key(entries, key, JsonView::Record(inner), key);
        lemma_key_position_is(now, key, at);
        if lookup(entries, key) is None {
            assert(without_entry(now, key) =~= entries);
        } else {
            assert(with_entry(now, key, JsonView::Record(group)) =~= entries);
        }
    }
}

/// Has no group along the path a name twice? None has: they are maps.
pub open spec fn distinct_along(entries: Entries, path: Seq<Text>) -> bool
    decreases path.len(),
{
    distinct_keys(entries) && (path.len() > 1 ==> match lookup(entries, path[0]) {
        Some(JsonView::Record(inner)) => distinct_along(inner, path.skip(1)),
        _ => true,
    })
}

/// A name that was removed no longer resolves.
pub proof fn removed_names_are_gone(entries: Entries, path: Seq<Text>, rest: Seq<Text>)
    requires
        path.len() > 0,
        distinct_along(entries, path),
        removed_at(entries, path).1 is Some,
    ensures
        resolved(removed_at(entries, path).0, path + rest) is Err,
    decreases path.len(),
{
    let key = path[0];
    let all = path + rest;
    assert(all[0] == key);
    assert(all.skip(1) =~= path.skip(1) + rest);
    remove_takes_one_key(entries, key, key);
    if path.len() > 1 {
        let group = lookup(entries, key)->0->Record_0;
        removed_names_are_gone(group, path.skip(1), rest);
        let inner = removed_at(group, path.skip(1)).0;
        insert_sets_one_key(entries, key, JsonView::Record(inner), key);
    }
}

} // verus!
