//! JSON values.
//!
//! Values are those of `serde_json`, with its maps in the order in which their
//! keys were inserted. Verus sees nothing inside them: [`value_tree`] and
//! [`map_entries`] name what they hold, as a [`JsonView`], and the functions
//! marked as trusted below say what the operations of `serde_json` do to it.

use serde_json::{Map as JsonMap, Value};
use vstd::prelude::*;

use crate::text::{decimal, Text};

verus! {

/// What a JSON value holds.
pub enum JsonView {
    Null,
    Bool(bool),
    /// A number: how it is written, and its value where that is an integer of
    /// 64 bits.
    Number(Text, Option<i64>),
    Text(Text),
    List(Seq<JsonView>),
    /// The keys and values of an object, in its order.
    Record(Seq<(Text, JsonView)>),
}

/// Keys and values, in the order of a map.
pub type Entries = Seq<(Text, JsonView)>;

// ─── Outside types and names ─────────────────────────────────────────

/// A value of `serde_json`.
#[verifier::external_type_specification]
#[verifier::external_body]
pub struct ExValue(Value);

/// A map of `serde_json`.
#[verifier::external_type_specification]
#[verifier::external_body]
#[verifier::reject_recursive_types(K)]
#[verifier::reject_recursive_types(V)]
pub struct ExMap<K, V>(JsonMap<K, V>);

/// What a value holds.
pub uninterp spec fn value_tree(v: Value) -> JsonView;

/// What a map holds.
pub uninterp spec fn map_entries(m: JsonMap<String, Value>) -> Seq<(Text, JsonView)>;

/// What `serde_json` makes of a text: the value that it holds, or how the error
/// is told.
pub uninterp spec fn json_parsed(text: Text) -> Result<JsonView, Text>;

/// A value written over several lines.
pub uninterp spec fn json_pretty(tree: JsonView) -> Text;

/// A value written without white space.
pub uninterp spec fn json_compact(tree: JsonView) -> Text;

/// What a row of values holds.
pub open spec fn trees(values: Seq<Value>) -> Seq<JsonView> {
    values.map_values(|v: Value| value_tree(v))
}

/// What an optional value holds.
pub open spec fn tree_option(v: Option<Value>) -> Option<JsonView> {
    match v {
        Some(v) => Some(value_tree(v)),
        None => None,
    }
}

/// What keys and values hold.
pub open spec fn entry_trees(pairs: Seq<(String, Value)>) -> Entries {
    pairs.map_values(|p: (String, Value)| (p.0@, value_tree(p.1)))
}

// ─── Entries ─────────────────────────────────────────────────────────

/// The position of the first entry with the key, or the number of entries.
pub open spec fn key_position(entries: Entries, key: Text) -> int
    decreases entries.len(),
{
    if entries.len() == 0 || entries[0].0 == key {
        0
    } else {
        1 + key_position(entries.skip(1), key)
    }
}

/// The value of a key.
pub open spec fn lookup(entries: Entries, key: Text) -> Option<JsonView> {
    let at = key_position(entries, key);
    if at < entries.len() {
        Some(entries[at].1)
    } else {
        None
    }
}

/// The entries with a key set to a value: in its place where it is there, at the
/// end where it is not.
pub open spec fn with_entry(entries: Entries, key: Text, value: JsonView) -> Entries {
    let at = key_position(entries, key);
    if at < entries.len() {
        entries.update(at, (entries[at].0, value))
    } else {
        entries.push((key, value))
    }
}

/// The entries without a key; the last entry takes its place.
pub open spec fn without_entry(entries: Entries, key: Text) -> Entries {
    let at = key_position(entries, key);
    if at < entries.len() {
        entries.update(at, entries.last()).drop_last()
    } else {
        entries
    }
}

/// Does no key occur twice?
pub open spec fn distinct_keys(entries: Entries) -> bool {
    forall|i: int, j: int|
        0 <= i < j < entries.len() ==> (#[trigger] entries[i]).0 != (#[trigger] entries[j]).0
}

/// Where a key is, it stands at its position and not before.
pub proof fn lemma_key_position(entries: Entries, key: Text)
    ensures
        0 <= key_position(entries, key) <= entries.len(),
        key_position(entries, key) < entries.len() ==> entries[key_position(entries, key)].0 == key,
        forall|i: int| 0 <= i < key_position(entries, key) ==> (#[trigger] entries[i]).0 != key,
    decreases entries.len(),
{
    if entries.len() != 0 && entries[0].0 != key {
        lemma_key_position(entries.skip(1), key);
        let n = key_position(entries, key);
        assert forall|i: int| 0 <= i < n implies (#[trigger] entries[i]).0 != key by {
            if i > 0 {
                assert(entries.skip(1)[i - 1] == entries[i]);
            }
        }
    }
}

/// A position at which the key stands, and not before, is its position; so is the
/// end where it stands nowhere.
pub proof fn lemma_key_position_is(entries: Entries, key: Text, n: int)
    requires
        0 <= n <= entries.len(),
        n < entries.len() ==> entries[n].0 == key,
        forall|i: int| 0 <= i < n ==> (#[trigger] entries[i]).0 != key,
    ensures
        key_position(entries, key) == n,
{
    lemma_key_position(entries, key);
    let m = key_position(entries, key);
    if m < n {
        assert(entries[m].0 != key);
    } else if n < m {
        assert(entries[n].0 != key);
    }
}

/// A key that was set has its new value; all others have theirs.
pub proof fn insert_sets_one_key(entries: Entries, key: Text, value: JsonView, other: Text)
    ensures
        lookup(with_entry(entries, key, value), other) == if other == key {
            Some(value)
        } else {
            lookup(entries, other)
        },
{
    let now = with_entry(entries, key, value);
    lemma_key_position(entries, key);
    lemma_key_position(entries, other);
    let at = key_position(entries, key);
    let to = key_position(entries, other);
    if other == key {
        lemma_key_position_is(now, key, at);
    } else if to < entries.len() {
        lemma_key_position_is(now, other, to);
    } else {
        lemma_key_position_is(now, other, now.len() as int);
    }
}

/// A key that was removed has no value; all others have theirs.
pub proof fn remove_takes_one_key(entries: Entries, key: Text, other: Text)
    requires
        distinct_keys(entries),
    ensures
        lookup(without_entry(entries, key), other) == if other == key {
            None
        } else {
            lookup(entries, other)
        },
        distinct_keys(without_entry(entries, key)),
{
    let now = without_entry(entries, key);
    lemma_key_position(entries, key);
    lemma_key_position(entries, other);
    let at = key_position(entries, key);
    let to = key_position(entries, other);
    let last = entries.len() - 1;
    if at < entries.len() {
        assert forall|i: int, j: int| 0 <= i < j < now.len() implies (#[trigger] now[i]).0 != (
        #[trigger] now[j]).0 by {
            let x = if i == at {
                last
            } else {
                i
            };
            let y = if j == at {
                last
            } else {
                j
            };
            assert(entries[x] == now[i]);
            assert(entries[y] == now[j]);
        }
        if other == key || to == entries.len() {
            assert forall|i: int| 0 <= i < now.len() implies (#[trigger] now[i]).0 != other by {
                let x = if i == at {
                    last
                } else {
                    i
                };
                assert(entries[x] == now[i]);
                if x > at {
                    assert(entries[at].0 != entries[x].0);
                } else if x < at {
                    assert(entries[x].0 != entries[at].0);
                }
            }
            lemma_key_position_is(now, other, now.len() as int);
        } else {
            let n = if to == last {
                at
            } else {
                to
            };
            assert(now[n] == entries[to]);
            lemma_key_position(now, other);
            let m = key_position(now, other);
            if m < n {
                assert(now[m].0 != now[n].0);
            }
            assert(m <= n);
        }
    }
}

/// Is the value made of nulls, booleans, integers and texts alone, with at most
/// `depth` lists and objects around each, no object of which has a key twice?
pub open spec fn fits(tree: JsonView, depth: nat) -> bool
    decreases tree,
{
    match tree {
        JsonView::Number(_, whole) => whole is Some,
        JsonView::List(items) => depth > 0 && forall|i: int|
            0 <= i < items.len() ==> fits(#[trigger] items[i], (depth - 1) as nat),
        JsonView::Record(entries) => depth > 0 && distinct_keys(entries) && forall|i: int|
            0 <= i < entries.len() ==> fits((#[trigger] entries[i]).1, (depth - 1) as nat),
        _ => true,
    }
}

/// The values that come back when they are written and read: without numbers
/// that are no integer of 64 bits, since a fraction may be rounded, and nested no
/// deeper than the reader goes.
pub open spec fn is_readable(tree: JsonView) -> bool {
    fits(tree, 127)
}

/// Is the text, with a newline behind it, read as the value, where that is
/// readable?
pub open spec fn reads_back(text: Text, tree: JsonView) -> bool {
    is_readable(tree) ==> json_parsed(text + "\n"@) == Ok::<JsonView, Text>(tree)
}

/// The text of a file that holds a value.
pub open spec fn document_text(tree: JsonView) -> Text {
    json_pretty(tree) + "\n"@
}

/// What the result of reading a value holds.
pub open spec fn parse_view(r: Result<Value, String>) -> Result<JsonView, Text> {
    match r {
        Ok(v) => Ok(value_tree(v)),
        Err(e) => Err(e@),
    }
}

// ─── Trusted: serde_json ─────────────────────────────────────────────

/// `serde_json::from_str`. The result is a function of the text: a value, or an
/// error, which is given as its text.
#[verifier::external_body]
pub(crate) fn parse_json(text: &str) -> (r: Result<Value, String>)
    ensures
        parse_view(r) == json_parsed(text@),
{
    serde_json::from_str::<Value>(text).map_err(|e| e.to_string())
}

/// `serde_json::to_string_pretty`. The result is a function of what the value
/// holds. It does not fail on a value: all keys are texts, and it writes to
/// memory. A readable value, written with a newline behind it, is read back as
/// it was: an integer is written in decimal, as `to_string` writes it, and the
/// reader passes over white space at the end.
#[verifier::external_body]
pub(crate) fn pretty_json(v: &Value) -> (r: String)
    ensures
        r@ == json_pretty(value_tree(*v)),
        reads_back(r@, value_tree(*v)),
{
    serde_json::to_string_pretty(v).unwrap()
}

/// `serde_json::to_string`. The result is a function of what the value holds. It
/// does not fail on a value: all keys are texts, and it writes to memory.
#[verifier::external_body]
pub(crate) fn compact_json(v: &Value) -> (r: String)
    ensures
        r@ == json_compact(value_tree(*v)),
{
    serde_json::to_string(v).unwrap()
}

/// The variants of a value, with their fields.
pub enum Shape {
    Null,
    Bool(bool),
    Number(String, Option<i64>),
    Text(String),
    List(Vec<Value>),
    Record(JsonMap<String, Value>),
}

impl View for Shape {
    type V = JsonView;

    open spec fn view(&self) -> JsonView {
        match self {
            Shape::Null => JsonView::Null,
            Shape::Bool(b) => JsonView::Bool(*b),
            Shape::Number(text, whole) => JsonView::Number(text@, *whole),
            Shape::Text(s) => JsonView::Text(s@),
            Shape::List(items) => JsonView::List(trees(items@)),
            Shape::Record(map) => JsonView::Record(map_entries(*map)),
        }
    }
}

/// Tells the variants of `serde_json::Value` apart. A number is given by its
/// `to_string` and its `as_i64`.
#[verifier::external_body]
pub(crate) fn open_value(v: Value) -> (r: Shape)
    ensures
        r@ == value_tree(v),
{
    match v {
        Value::Null => Shape::Null,
        Value::Bool(b) => Shape::Bool(b),
        Value::Number(n) => Shape::Number(n.to_string(), n.as_i64()),
        Value::String(s) => Shape::Text(s),
        Value::Array(items) => Shape::List(items),
        Value::Object(map) => Shape::Record(map),
    }
}

/// What a value can be made of.
pub enum Parts {
    Null,
    Bool(bool),
    Integer(i64),
    Text(String),
    List(Vec<Value>),
    Record(JsonMap<String, Value>),
}

/// How an integer is written.
pub open spec fn integer_text(n: i64) -> Text {
    if n < 0 {
        "-"@ + decimal((-n) as nat)
    } else {
        decimal(n as nat)
    }
}

impl View for Parts {
    type V = JsonView;

    open spec fn view(&self) -> JsonView {
        match self {
            Parts::Null => JsonView::Null,
            Parts::Bool(b) => JsonView::Bool(*b),
            Parts::Integer(n) => JsonView::Number(integer_text(*n), Some(*n)),
            Parts::Text(s) => JsonView::Text(s@),
            Parts::List(items) => JsonView::List(trees(items@)),
            Parts::Record(map) => JsonView::Record(map_entries(*map)),
        }
    }
}

/// The variants of `serde_json::Value`, made from their fields; a number by
/// `Value::from`.
#[verifier::external_body]
pub(crate) fn make_value(parts: Parts) -> (r: Value)
    ensures
        value_tree(r) == parts@,
{
    match parts {
        Parts::Null => Value::Null,
        Parts::Bool(b) => Value::Bool(b),
        Parts::Integer(n) => Value::from(n),
        Parts::Text(s) => Value::String(s),
        Parts::List(items) => Value::Array(items),
        Parts::Record(map) => Value::Object(map),
    }
}

/// `Value::clone`: the copy holds what the value holds.
#[verifier::external_body]
pub(crate) fn copy_value(v: &Value) -> (r: Value)
    ensures
        value_tree(r) == value_tree(*v),
{
    v.clone()
}

/// `Map::clone`: the copy holds what the map holds.
#[verifier::external_body]
pub(crate) fn copy_map(m: &JsonMap<String, Value>) -> (r: JsonMap<String, Value>)
    ensures
        map_entries(r) == map_entries(*m),
{
    m.clone()
}

/// `Map::new`: a map without entries.
#[verifier::external_body]
pub(crate) fn map_new() -> (r: JsonMap<String, Value>)
    ensures
        map_entries(r) == Seq::<(Text, JsonView)>::empty(),
{
    JsonMap::new()
}

/// `Map::get`, as a copy: the value of the key.
#[verifier::external_body]
pub(crate) fn map_get(m: &JsonMap<String, Value>, key: &str) -> (r: Option<Value>)
    ensures
        tree_option(r) == lookup(map_entries(*m), key@),
{
    m.get(key).cloned()
}

/// `Map::insert`: a key that is there gets the value in its place, another comes
/// last.
#[verifier::external_body]
pub(crate) fn map_insert(m: &mut JsonMap<String, Value>, key: String, value: Value)
    ensures
        map_entries(*final(m)) == with_entry(map_entries(*old(m)), key@, value_tree(value)),
{
    m.insert(key, value);
}

/// `Map::remove`: the value of the key is taken out, and the last entry takes
/// the place of its entry.
#[verifier::external_body]
pub(crate) fn map_remove(m: &mut JsonMap<String, Value>, key: &str) -> (r: Option<Value>)
    ensures
        tree_option(r) == lookup(map_entries(*old(m)), key@),
        map_entries(*final(m)) == without_entry(map_entries(*old(m)), key@),
{
    m.remove(key)
}

/// `Map::into_iter`: the entries in their order.
#[verifier::external_body]
pub(crate) fn map_list(m: JsonMap<String, Value>) -> (r: Vec<(String, Value)>)
    ensures
        entry_trees(r@) == map_entries(m),
{
    m.into_iter().collect()
}

/// `Map::is_empty`.
#[verifier::external_body]
pub(crate) fn map_is_empty(m: &JsonMap<String, Value>) -> (r: bool)
    ensures
        r == (map_entries(*m).len() == 0),
{
    m.is_empty()
}

// ─── Values ──────────────────────────────────────────────────────────

/// The field `key` of a value: none where it is no object.
pub open spec fn field_of(tree: JsonView, key: Text) -> Option<JsonView> {
    match tree {
        JsonView::Record(entries) => lookup(entries, key),
        _ => None,
    }
}

/// The field `key` of what may be a value.
pub open spec fn field_in(tree: Option<JsonView>, key: Text) -> Option<JsonView> {
    match tree {
        Some(tree) => field_of(tree, key),
        None => None,
    }
}

/// The text that a value is, if it is one.
pub open spec fn text_in(tree: Option<JsonView>) -> Option<Text> {
    match tree {
        Some(JsonView::Text(s)) => Some(s),
        _ => None,
    }
}

/// The field `key` of a value.
pub fn field(v: &Value, key: &str) -> (r: Option<Value>)
    ensures
        tree_option(r) == field_of(value_tree(*v), key@),
{
    match open_value(copy_value(v)) {
        Shape::Record(map) => map_get(&map, key),
        _ => None,
    }
}

/// The text that a value is, if it is one.
pub fn as_text(v: Option<Value>) -> (r: Option<String>)
    ensures
        r.deep_view() == text_in(tree_option(v)),
{
    match v {
        Some(v) => match open_value(v) {
            Shape::Text(s) => Some(s),
            _ => None,
        },
        None => None,
    }
}

/// The text of a file that holds a value: the value on lines of its own, with a
/// newline at the end. A readable value is read back from it as it was.
pub fn document(v: &Value) -> (r: String)
    ensures
        r@ == document_text(value_tree(*v)),
        is_readable(value_tree(*v)) ==> json_parsed(r@) == Ok::<JsonView, Text>(value_tree(*v)),
{
    pretty_json(v).concat("\n")
}

/// A text as a value.
pub fn text_value(s: &str) -> (r: Value)
    ensures
        value_tree(r) == JsonView::Text(s@),
{
    make_value(Parts::Text(s.to_owned()))
}

/// An object with one entry.
pub fn record1(key: &str, value: Value) -> (r: Value)
    ensures
        value_tree(r) == JsonView::Record(seq![(key@, value_tree(value))]),
{
    let mut map = map_new();
    map_insert(&mut map, key.to_owned(), value);
    assert(map_entries(map) =~= seq![(key@, value_tree(value))]);
    make_value(Parts::Record(map))
}

/// An object with two entries.
pub fn record2(k1: &str, v1: Value, k2: &str, v2: Value) -> (r: Value)
    requires
        k1@ != k2@,
    ensures
        value_tree(r) == JsonView::Record(seq![(k1@, value_tree(v1)), (k2@, value_tree(v2))]),
{
    let mut map = map_new();
    map_insert(&mut map, k1.to_owned(), v1);
    let ghost one = map_entries(map);
    map_insert(&mut map, k2.to_owned(), v2);
    proof {
        assert(one =~= seq![(k1@, value_tree(v1))]);
        lemma_key_position_is(one, k2@, 1);
        assert(map_entries(map) =~= seq![(k1@, value_tree(v1)), (k2@, value_tree(v2))]);
    }
    make_value(Parts::Record(map))
}

/// An object with three entries.
pub fn record3(k1: &str, v1: Value, k2: &str, v2: Value, k3: &str, v3: Value) -> (r: Value)
    requires
        k1@ != k2@,
        k1@ != k3@,
        k2@ != k3@,
    ensures
        value_tree(r) == JsonView::Record(
            seq![(k1@, value_tree(v1)), (k2@, value_tree(v2)), (k3@, value_tree(v3))],
        ),
{
    let mut map = map_new();
    map_insert(&mut map, k1.to_owned(), v1);
    let ghost one = map_entries(map);
    map_insert(&mut map, k2.to_owned(), v2);
    let ghost two = map_entries(map);
    map_insert(&mut map, k3.to_owned(), v3);
    proof {
        assert(one =~= seq![(k1@, value_tree(v1))]);
        lemma_key_position_is(one, k2@, 1);
        assert(two =~= seq![(k1@, value_tree(v1)), (k2@, value_tree(v2))]);
        lemma_key_position_is(two, k3@, 2);
        assert(map_entries(map) =~= seq![
            (k1@, value_tree(v1)),
            (k2@, value_tree(v2)),
            (k3@, value_tree(v3)),
        ]);
    }
    make_value(Parts::Record(map))
}

/// A list with one item.
pub fn list1(value: Value) -> (r: Value)
    ensures
        value_tree(r) == JsonView::List(seq![value_tree(value)]),
{
    let mut items: Vec<Value> = Vec::new();
    items.push(value);
    assert(trees(items@) =~= seq![value_tree(value)]);
    make_value(Parts::List(items))
}

/// A list with two items.
pub fn list2(first: Value, second: Value) -> (r: Value)
    ensures
        value_tree(r) == JsonView::List(seq![value_tree(first), value_tree(second)]),
{
    let mut items: Vec<Value> = Vec::new();
    items.push(first);
    items.push(second);
    assert(trees(items@) =~= seq![value_tree(first), value_tree(second)]);
    make_value(Parts::List(items))
}

} // verus!
