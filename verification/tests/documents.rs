//! The JSON and text documents that subcontext reads and writes.

use serde_json::Value;

use subcontext::agent::Agent;
use subcontext::frontmatter::{parse_frontmatter, FrontmatterMap};
use subcontext::json::document;
use subcontext::mcp_config::{merge_server, parse_config, unmerge_server};
use subcontext::namespace::{
    flatten_namespaces, parse_namespaces, remove_namespace, resolve_namespace, set_namespace,
    validate_name,
};
use subcontext::objects::{build_child_object_json, object_kind, record_path};
use subcontext::project::config_value;
use subcontext::settings::{is_our_entry, merge_hook, parse_settings, unmerge_hook};
use subcontext::failure::Failure;

fn value(text: &str) -> Value {
    serde_json::from_str(text).unwrap()
}

fn ok<T>(r: Result<T, Failure>) -> T {
    match r {
        Ok(v) => v,
        Err(e) => panic!("{}", e.chain_text()),
    }
}

fn message<T>(r: Result<T, Failure>) -> String {
    match r {
        Ok(_) => panic!("a failure was expected"),
        Err(e) => e.chain_text(),
    }
}

fn helper() -> Agent {
    Agent { name: "helper".to_string(), title: "Helper".to_string() }
}

// ─── Settings ─────────────────────────────────────────────────────────

const OUR_ENTRY: &str =
    r#"{"hooks":[{"type":"command","command":"git subcontext startup --helper-code"}]}"#;

#[test]
fn merging_adds_the_hook_to_empty_settings() {
    let merged = ok(merge_hook(&helper(), value("{}")));
    let expected = format!(r#"{{"hooks":{{"SessionStart":[{OUR_ENTRY}]}}}}"#);
    assert_eq!(serde_json::to_string(&merged).unwrap(), expected);
}

#[test]
fn merging_twice_is_merging_once() {
    let once = ok(merge_hook(&helper(), value(r#"{"a":1,"hooks":{"Stop":[]}}"#)));
    let twice = ok(merge_hook(&helper(), once.clone()));
    assert_eq!(once, twice);
    assert_eq!(once["a"], value("1"));
    assert_eq!(once["hooks"]["Stop"], value("[]"));
}

#[test]
fn older_commands_count_as_ours() {
    let agent = helper();
    for command in [
        "git subcontext startup --helper-code",
        "subcontext startup --helper-code",
        "subcontext startup",
    ] {
        let entry = value(&format!(r#"{{"hooks":[{{"command":"{command}"}}]}}"#));
        assert!(is_our_entry(&agent, &entry), "{command}");
    }
    assert!(!is_our_entry(&agent, &value(r#"{"hooks":[{"command":"make"}]}"#)));
    assert!(!is_our_entry(&agent, &value(r#"{"hooks":"subcontext startup"}"#)));
    assert!(!is_our_entry(&agent, &value("[]")));
}

#[test]
fn removing_undoes_a_merge() {
    let before = value(r#"{"hooks":{"SessionStart":[{"hooks":[{"command":"make"}]}]},"b":true}"#);
    let merged = ok(merge_hook(&helper(), before.clone()));
    assert_ne!(merged, before);
    assert_eq!(unmerge_hook(&helper(), merged), Some(before.clone()));
    assert_eq!(unmerge_hook(&helper(), before), None);
    assert_eq!(unmerge_hook(&helper(), value("[]")), None);
    assert_eq!(unmerge_hook(&helper(), value(r#"{"hooks":1}"#)), None);
    assert_eq!(unmerge_hook(&helper(), value(r#"{"hooks":{"SessionStart":1}}"#)), None);
}

#[test]
fn settings_of_another_shape_are_refused() {
    assert_eq!(
        message(merge_hook(&helper(), value("[]"))),
        "settings.local.json root is not an object"
    );
    assert_eq!(
        message(merge_hook(&helper(), value(r#"{"hooks":[]}"#))),
        "hooks field is not an object"
    );
    assert_eq!(
        message(merge_hook(&helper(), value(r#"{"hooks":{"SessionStart":{}}}"#))),
        "SessionStart field is not an array"
    );
    let error = serde_json::from_str::<Value>("{").unwrap_err().to_string();
    assert_eq!(
        message(parse_settings(&helper(), "{")),
        format!("failed to parse .helper/settings.local.json: {error}")
    );
    assert_eq!(ok(parse_settings(&helper(), r#" {"a" : [1, 2]}"#)), value(r#"{"a":[1,2]}"#));
}

// ─── MCP configuration ────────────────────────────────────────────────

#[test]
fn the_server_is_added_and_removed() {
    let before = value(r#"{"mcpServers":{"other":{"command":"x"}}}"#);
    let merged = ok(merge_server(before.clone()));
    assert_eq!(merged["mcpServers"]["other"], before["mcpServers"]["other"]);
    assert!(merged["mcpServers"]["subcontext"].is_object());
    assert_eq!(ok(merge_server(merged.clone())), merged);
    assert_eq!(unmerge_server(merged), Some(before.clone()));
    assert_eq!(unmerge_server(before), None);
}

#[test]
fn a_config_of_another_shape_is_refused() {
    assert!(merge_server(value("1")).is_err());
    assert!(merge_server(value(r#"{"mcpServers":[]}"#)).is_err());
    assert!(parse_config("nonsense").is_err());
}

// ─── Namespaces ───────────────────────────────────────────────────────

type Names = serde_json::Map<String, Value>;

fn names(text: &str) -> Names {
    ok(parse_namespaces(text))
}

#[test]
fn a_set_name_resolves() {
    let mut ns = Names::new();
    ok(set_namespace(&mut ns, &["work", "api"], "u-1"));
    let (uuid, rest) = ok(resolve_namespace(&ns, &["work", "api", "deep", "er"]));
    assert_eq!(uuid, "u-1");
    assert_eq!(rest, &["deep", "er"]);
    ok(set_namespace(&mut ns, &["home"], "u-2"));
    assert_eq!(
        flatten_namespaces(&ns, ""),
        vec![
            ("home".to_string(), "u-2".to_string()),
            ("work/api".to_string(), "u-1".to_string())
        ]
    );
}

#[test]
fn removing_a_name_drops_what_gets_empty() {
    let mut ns = names(r#"{"work":{"api":"u-1"},"home":"u-2"}"#);
    let removed = ok(remove_namespace(&mut ns, &["work", "api"]));
    assert_eq!(removed, Some(value(r#""u-1""#)));
    assert_eq!(Value::Object(ns.clone()), value(r#"{"home":"u-2"}"#));
    assert_eq!(ok(remove_namespace(&mut ns, &["gone"])), None);
}

#[test]
fn names_are_checked() {
    assert!(validate_name("api").is_ok());
    assert!(validate_name("").is_err());
    assert!(validate_name(".hidden").is_err());
    let mut ns = Names::new();
    assert!(set_namespace(&mut ns, &[], "u").is_err());
    assert!(set_namespace(&mut ns, &["a", ""], "u").is_err());
    let mut ns = names(r#"{"a":"u-1"}"#);
    assert!(set_namespace(&mut ns, &["a", "b"], "u-2").is_err());
    assert_eq!(Value::Object(ns), value(r#"{"a":"u-1"}"#));
    assert!(resolve_namespace(&Names::new(), &["x"]).is_err());
    assert!(parse_namespaces("[]").is_err());
}

// ─── Objects ──────────────────────────────────────────────────────────

#[test]
fn a_document_is_read_back() {
    let whole = value("[0, -1, 9223372036854775807, -9223372036854775808]");
    assert_eq!(
        document(&whole),
        "[\n  0,\n  -1,\n  9223372036854775807,\n  -9223372036854775808\n]\n"
    );
    assert_eq!(value(&document(&whole)), whole);
    let object = value(r#"{"b":[null,true,"x\n\"y\""],"a":{}}"#);
    let text = document(&object);
    assert_eq!(
        text,
        "{\n  \"b\": [\n    null,\n    true,\n    \"x\\n\\\"y\\\"\"\n  ],\n  \"a\": {}\n}\n"
    );
    assert_eq!(value(&text), object);
    assert_eq!(
        build_child_object_json("u-1", "user"),
        "{\n  \"type\": \"child\",\n  \"data\": {\n    \"uuid\": \"u-1\",\n    \"kind\": \"user\"\n  }\n}\n"
    );
}

#[test]
fn a_child_tells_its_kind() {
    let object = value(&build_child_object_json("u-1", "user"));
    assert_eq!(object_kind(&object), Some("user".to_string()));
}

#[test]
fn recording_a_path_adds_it_once() {
    let object = value(&build_child_object_json("u-1", "subcontext"));
    let once = ok(record_path(object.clone(), "/r/.git")).unwrap();
    assert_ne!(once, object);
    assert!(serde_json::to_string(&once).unwrap().contains("/r/.git"));
    assert_eq!(ok(record_path(once, "/r/.git")), None);
    assert_eq!(
        message(record_path(value(r#"{"data":7}"#), "/r/.git")),
        "'data' in object.json is not an object"
    );
}

// ─── Frontmatter and configuration ────────────────────────────────────

#[test]
fn frontmatter_is_split_from_the_body() {
    let (pairs, body) = parse_frontmatter("---\nname: A task\nkind: goal\n---\nBody\nmore");
    assert_eq!(
        pairs,
        vec![
            ("name".to_string(), "A task".to_string()),
            ("kind".to_string(), "goal".to_string())
        ]
    );
    assert_eq!(body, "Body\nmore");
    let map = FrontmatterMap(&pairs);
    assert_eq!(map.get("kind"), Some("goal".to_string()));
    assert_eq!(map.get("status"), None);
}

#[test]
fn a_text_without_frontmatter_is_all_body() {
    let (pairs, body) = parse_frontmatter("Body\n---\n");
    assert!(pairs.is_empty());
    assert_eq!(body, "Body\n---\n");
    let (pairs, body) = parse_frontmatter("---\nname: x\n");
    assert!(pairs.is_empty());
    assert_eq!(body, "---\nname: x\n");
}

#[test]
fn configuration_values_are_read_by_label() {
    let text = "project_uuid: abc\nkind: user\n";
    assert_eq!(config_value(text, "project_uuid:"), Some("abc".to_string()));
    assert_eq!(config_value(text, "kind:"), Some("user".to_string()));
    assert_eq!(config_value(text, "version:"), None);
}
