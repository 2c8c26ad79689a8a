//! The `object.json` of a child subcontext, as its parent keeps it.

use serde_json::{Map as JsonMap, Value};
use vstd::prelude::*;

use crate::failure::{fail, failed, Failure, Outcome};
use crate::json::{
    as_text, copy_value, document, document_text, field, field_in, field_of, fits,
    insert_sets_one_key, json_parsed, lemma_key_position_is, list2, lookup, make_value, map_get,
    map_insert, map_new, open_value, record2, text_in, text_value, tree_option, trees, value_tree,
    with_entry, Entries, JsonView, Parts, Shape,
};
use crate::text::{same, Text};

verus! {

// ─── A new child ─────────────────────────────────────────────────────

/// What is recorded of a new child.
pub open spec fn child_tree(uuid: Text, kind: Text) -> JsonView {
    JsonView::Record(
        seq![
            ("type"@, JsonView::Text("child"@)),
            (
                "data"@,
                JsonView::Record(
                    seq![("uuid"@, JsonView::Text(uuid)), ("kind"@, JsonView::Text(kind))],
                ),
            ),
        ],
    )
}

/// The `object.json` of a new child.
pub open spec fn child_object_text(uuid: Text, kind: Text) -> Text {
    document_text(child_tree(uuid, kind))
}

/// The `object.json` of a new child: its type, and its UUID and kind as data,
/// which are read back from it.
pub fn build_child_object_json(uuid: &str, kind: &str) -> (r: String)
    ensures
        r@ == child_object_text(uuid@, kind@),
        json_parsed(r@) == Ok::<JsonView, Text>(child_tree(uuid@, kind@)),
{
    proof {
        reveal_with_fuel(fits, 3);
        reveal_strlit("uuid");
        reveal_strlit("kind");
        assert("uuid"@[0] != "kind"@[0]);
        reveal_strlit("type");
        reveal_strlit("data");
        assert("type"@[0] != "data"@[0]);
    }
    let data = record2("uuid", text_value(uuid), "kind", text_value(kind));
    let object = record2("type", text_value("child"), "data", data);
    document(&object)
}

// ─── Its kind ────────────────────────────────────────────────────────

/// The kind that an object tells, if it does.
pub open spec fn kind_in(object: JsonView) -> Option<Text> {
    text_in(field_in(field_of(object, "data"@), "kind"@))
}

/// The kind that an object tells, if it does.
pub fn object_kind(object: &Value) -> (r: Option<String>)
    ensures
        r.deep_view() == kind_in(value_tree(*object)),
{
    match field(object, "data") {
        None => None,
        Some(data) => as_text(field(&data, "kind")),
    }
}

// ─── Its checkouts ───────────────────────────────────────────────────

/// Is one of the items this text?
pub open spec fn lists_text(items: Seq<JsonView>, s: Text) -> bool {
    exists|i: int| 0 <= i < items.len() && #[trigger] items[i] == JsonView::Text(s)
}

/// What is recorded of the checkouts with one more path: none where it is
/// recorded already. A single path is a text, several are a list; what is
/// neither is replaced.
pub open spec fn paths_with(recorded: Option<JsonView>, path: Text) -> Option<JsonView> {
    match recorded {
        Some(JsonView::Text(there)) => if there == path {
            None
        } else {
            Some(JsonView::List(seq![JsonView::Text(there), JsonView::Text(path)]))
        },
        Some(JsonView::List(items)) => if lists_text(items, path) {
            None
        } else {
            Some(JsonView::List(items.push(JsonView::Text(path))))
        },
        _ => Some(JsonView::Text(path)),
    }
}

/// The data of a child with one more checkout path: none where it is recorded
/// already.
pub open spec fn data_with(data: Entries, path: Text) -> Option<Entries> {
    match paths_with(lookup(data, "checkout_path"@), path) {
        None => None,
        Some(paths) => Some(with_entry(data, "checkout_path"@, paths)),
    }
}

/// The entries of the data of an object; data that is null has none.
pub open spec fn data_entries(data: JsonView) -> Option<Entries> {
    match data {
        JsonView::Null => Some(Seq::empty()),
        JsonView::Record(entries) => Some(entries),
        _ => None,
    }
}

/// The object of a child with one more checkout path: none where it is recorded
/// already.
pub open spec fn object_with_path(object: JsonView, path: Text) -> Outcome<Option<JsonView>> {
    match field_of(object, "data"@) {
        None => Err(failed("missing 'data' key in object.json"@)),
        Some(data) => match data_entries(data) {
            None => Err(failed("'data' in object.json is not an object"@)),
            Some(entries) => match data_with(entries, path) {
                None => Ok(None),
                Some(entries) => Ok(
                    Some(
                        JsonView::Record(
                            with_entry(object->Record_0, "data"@, JsonView::Record(entries)),
                        ),
                    ),
                ),
            },
        },
    }
}

/// Is one of the items this text?
fn has_text(items: &Vec<Value>, s: &str) -> (r: bool)
    ensures
        r == lists_text(trees(items@), s@),
{
    let ghost all = trees(items@);
    let mut i: usize = 0;
    while i < items.len()
        invariant
            i <= items@.len(),
            all == trees(items@),
            forall|j: int| 0 <= j < i ==> #[trigger] all[j] != JsonView::Text(s@),
        decreases items@.len() - i,
    {
        assert(all[i as int] == value_tree(items@[i as int]));
        match open_value(copy_value(&items[i])) {
            Shape::Text(text) => {
                if same(text.as_str(), s) {
                    assert(lists_text(all, s@));
                    return true;
                }
            },
            _ => {},
        }
        i = i + 1;
    }
    false
}

/// What is recorded of the checkouts with one more path.
fn add_path(recorded: Option<Value>, path: &str) -> (r: Option<Value>)
    ensures
        tree_option(r) == paths_with(tree_option(recorded), path@),
{
    match recorded {
        None => Some(text_value(path)),
        Some(v) => match open_value(v) {
            Shape::Text(there) => {
                if same(there.as_str(), path) {
                    return None;
                }
                Some(list2(text_value(there.as_str()), text_value(path)))
            },
            Shape::List(items) => {
                if has_text(&items, path) {
                    return None;
                }
                let ghost before = trees(items@);
                let mut items = items;
                items.push(text_value(path));
                assert(trees(items@) =~= before.push(JsonView::Text(path@)));
                Some(make_value(Parts::List(items)))
            },
            _ => Some(text_value(path)),
        },
    }
}

/// The view of what may be a value.
pub open spec fn change_outcome(r: Result<Option<Value>, Failure>) -> Outcome<Option<JsonView>> {
    match r {
        Ok(v) => Ok(tree_option(v)),
        Err(e) => Err(e@),
    }
}

/// Record one more checkout path in the object of a child.
pub fn record_path(object: Value, path: &str) -> (r: Result<Option<Value>, Failure>)
    ensures
        change_outcome(r) == object_with_path(value_tree(object), path@),
{
    let mut outer = match open_value(object) {
        Shape::Record(outer) => outer,
        _ => {
            return Err(fail("missing 'data' key in object.json"));
        },
    };
    let mut data: JsonMap<String, Value> = match map_get(&outer, "data") {
        None => {
            return Err(fail("missing 'data' key in object.json"));
        },
        Some(data) => match open_value(data) {
            Shape::Null => map_new(),
            Shape::Record(data) => data,
            _ => {
                return Err(fail("'data' in object.json is not an object"));
            },
        },
    };
    match add_path(map_get(&data, "checkout_path"), path) {
        None => Ok(None),
        Some(paths) => {
            map_insert(&mut data, "checkout_path".to_owned(), paths);
            map_insert(&mut outer, "data".to_owned(), make_value(Parts::Record(data)));
            Ok(Some(make_value(Parts::Record(outer))))
        },
    }
}

// ─── Laws ────────────────────────────────────────────────────────────

/// Is the path among those that are recorded?
pub open spec fn is_recorded(recorded: Option<JsonView>, path: Text) -> bool {
    match recorded {
        Some(JsonView::Text(there)) => there == path,
        Some(JsonView::List(items)) => lists_text(items, path),
        _ => false,
    }
}

/// What an object records of the checkouts.
pub open spec fn recorded_in(object: JsonView) -> Option<JsonView> {
    field_in(field_of(object, "data"@), "checkout_path"@)
}

proof fn lemma_paths_with(recorded: Option<JsonView>, path: Text, other: Text)
    ensures
        paths_with(recorded, path) is None <==> is_recorded(recorded, path),
        paths_with(recorded, path) is Some ==> (is_recorded(paths_with(recorded, path), other)
            <==> other == path || is_recorded(recorded, other)),
{
    if paths_with(recorded, path) is Some {
        match recorded {
            Some(JsonView::Text(there)) => {
                let items = seq![JsonView::Text(there), JsonView::Text(path)];
                assert(items[0] == JsonView::Text(there));
                assert(items[1] == JsonView::Text(path));
            },
            Some(JsonView::List(items)) => {
                let now = items.push(JsonView::Text(path));
                assert(now[items.len() as int] == JsonView::Text(path));
                if lists_text(items, other) {
                    let i = choose|i: int|
                        0 <= i < items.len() && #[trigger] items[i] == JsonView::Text(other);
                    assert(now[i] == JsonView::Text(other));
                }
                if lists_text(now, other) {
                    let i = choose|i: int|
                        0 <= i < now.len() && #[trigger] now[i] == JsonView::Text(other);
                    if i < items.len() {
                        assert(items[i] == JsonView::Text(other));
                    }
                }
            },
            _ => {},
        }
    }
}

/// Recording a path records it and keeps the others: afterwards just that path
/// and those that were recorded are. Nothing changes just where it was recorded
/// already.
pub proof fn recording_adds_one_path(object: JsonView, path: Text, other: Text)
    requires
        object_with_path(object, path) is Ok,
    ensures
        object_with_path(object, path)->Ok_0 is None <==> is_recorded(recorded_in(object), path),
        object_with_path(object, path)->Ok_0 is Some ==> (is_recorded(
            recorded_in(object_with_path(object, path)->Ok_0->0),
            other,
        ) <==> other == path || is_recorded(recorded_in(object), other)),
{
    let data = data_entries(field_of(object, "data"@)->0)->0;
    let before = lookup(data, "checkout_path"@);
    lemma_paths_with(before, path, other);
    assert(before == recorded_in(object));
    if paths_with(before, path) is Some {
        let paths = paths_with(before, path)->0;
        let now = with_entry(data, "checkout_path"@, paths);
        insert_sets_one_key(data, "checkout_path"@, paths, "checkout_path"@);
        insert_sets_one_key(object->Record_0, "data"@, JsonView::Record(now), "data"@);
    }
}

/// Recording a path twice is recording it once.
pub proof fn recording_is_idempotent(object: JsonView, path: Text)
    requires
        object_with_path(object, path) is Ok,
        object_with_path(object, path)->Ok_0 is Some,
    ensures
        object_with_path(object_with_path(object, path)->Ok_0->0, path) == Ok::<
            Option<JsonView>,
            Seq<Text>,
        >(None),
{
    recording_adds_one_path(object, path, path);
    let now = object_with_path(object, path)->Ok_0->0;
    let data = data_entries(field_of(object, "data"@)->0)->0;
    let paths = paths_with(lookup(data, "checkout_path"@), path)->0;
    let entries = with_entry(data, "checkout_path"@, paths);
    insert_sets_one_key(object->Record_0, "data"@, JsonView::Record(entries), "data"@);
    assert(object_with_path(now, path) is Ok);
    recording_adds_one_path(now, path, path);
}

/// The object of a new child tells its kind.
pub proof fn child_tells_its_kind(uuid: Text, kind: Text)
    ensures
        kind_in(child_tree(uuid, kind)) == Some(kind),
{
    reveal_strlit("uuid");
    reveal_strlit("kind");
    reveal_strlit("type");
    reveal_strlit("data");
    assert("uuid"@[0] != "kind"@[0]);
    assert("type"@[0] != "data"@[0]);
    let outer = child_tree(uuid, kind)->Record_0;
    lemma_key_position_is(outer, "data"@, 1);
    let data = outer[1].1->Record_0;
    lemma_key_position_is(data, "kind"@, 1);
}

} // verus!
