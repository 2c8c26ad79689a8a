//! The subcontext MCP server: JSON-RPC 2.0, one message per line.
//!
//! It exposes two tools: `subcontext_status`, which gives the output of
//! `subcontext status` for the server's current working directory, and
//! `subcontext_deadlines`, which lists the deadlines of its tasks.

use serde_json::Value;
use vstd::prelude::*;

use crate::backend::{Backend, StoreRequest};
use crate::environment::{Env, EnvView};
use crate::failure::{outcome, Failure, Outcome};
use crate::git::{find_main_git_root, find_main_run};
use crate::json::{
    as_text, compact_json, field, field_in, field_of, json_compact, json_parsed, list1, list2,
    make_value, map_new, open_value, parse_json, record1, record2, record3, text_in, text_value,
    tree_option, value_tree, integer_text, JsonView, Parts, Shape,
};
use crate::status::{status_is_one, status_text, status_within};
use crate::text::{cat, joined, same, trim, trimmed, Text};
use crate::world::{StoreCall, World};

verus! {

pub const PROTOCOL_VERSION: &'static str = "2024-11-05";

/// The JSON-RPC code of a request whose method is not known.
pub const METHOD_NOT_FOUND: i64 = -32601;

/// The JSON-RPC code of a request that failed.
pub const INTERNAL_ERROR: i64 = -32603;

// ─── What the server tells of itself ─────────────────────────────────

/// An object without entries.
pub open spec fn no_entries() -> JsonView {
    JsonView::Record(Seq::empty())
}

/// The answer to `initialize`.
pub open spec fn initialize_tree(version: Text) -> JsonView {
    JsonView::Record(
        seq![
            ("protocolVersion"@, JsonView::Text(PROTOCOL_VERSION@)),
            ("capabilities"@, JsonView::Record(seq![("tools"@, no_entries())])),
            (
                "serverInfo"@,
                JsonView::Record(
                    seq![
                        ("name"@, JsonView::Text("subcontext"@)),
                        ("version"@, JsonView::Text(version)),
                    ],
                ),
            ),
        ],
    )
}

/// The schema of the arguments of a tool.
pub open spec fn schema_tree(properties: JsonView) -> JsonView {
    JsonView::Record(
        seq![
            ("type"@, JsonView::Text("object"@)),
            ("properties"@, properties),
            ("additionalProperties"@, JsonView::Bool(false)),
        ],
    )
}

/// A tool.
pub open spec fn tool_tree(name: Text, description: Text, properties: JsonView) -> JsonView {
    JsonView::Record(
        seq![
            ("name"@, JsonView::Text(name)),
            ("description"@, JsonView::Text(description)),
            ("inputSchema"@, schema_tree(properties)),
        ],
    )
}

pub const STATUS_DESCRIPTION: &'static str = "Show current repo, worktree, and subcontext status for the project the server is running in.";

pub const DEADLINES_DESCRIPTION: &'static str = "List deadlines for tasks not marked done or failed. Returns task names, statuses, deadlines, and importance values sorted by deadline.";

pub const IMPORTANT_DESCRIPTION: &'static str = "If true, only show tasks with importance > 0. Default: false.";

pub const HORIZON_DESCRIPTION: &'static str = "How far into the future to look for deadlines, as a human-readable duration (e.g. '1d', '2w', '3mo', '1y'). Suffixes: s, m (minutes), h, d, w, mo (months), y. Use '0' for only overdue deadlines. If omitted, shows all deadlines.";

/// The arguments of the deadlines tool.
pub open spec fn deadlines_properties() -> JsonView {
    JsonView::Record(
        seq![
            (
                "important_only"@,
                JsonView::Record(
                    seq![
                        ("type"@, JsonView::Text("boolean"@)),
                        ("description"@, JsonView::Text(IMPORTANT_DESCRIPTION@)),
                        ("default"@, JsonView::Bool(false)),
                    ],
                ),
            ),
            (
                "horizon"@,
                JsonView::Record(
                    seq![
                        ("type"@, JsonView::Text("string"@)),
                        ("description"@, JsonView::Text(HORIZON_DESCRIPTION@)),
                    ],
                ),
            ),
        ],
    )
}

/// The answer to `tools/list`.
pub open spec fn tools_tree() -> JsonView {
    JsonView::Record(
        seq![
            (
                "tools"@,
                JsonView::List(
                    seq![
                        tool_tree("subcontext_status"@, STATUS_DESCRIPTION@, no_entries()),
                        tool_tree(
                            "subcontext_deadlines"@,
                            DEADLINES_DESCRIPTION@,
                            deadlines_properties(),
                        ),
                    ],
                ),
            ),
        ],
    )
}

/// The answer of a tool.
pub open spec fn answer_tree(text: Text, is_error: bool) -> JsonView {
    JsonView::Record(
        seq![
            (
                "content"@,
                JsonView::List(
                    seq![
                        JsonView::Record(
                            seq![
                                ("type"@, JsonView::Text("text"@)),
                                ("text"@, JsonView::Text(text)),
                            ],
                        ),
                    ],
                ),
            ),
            ("isError"@, JsonView::Bool(is_error)),
        ],
    )
}

/// An object without entries.
fn empty_record() -> (r: Value)
    ensures
        value_tree(r) == no_entries(),
{
    make_value(Parts::Record(map_new()))
}

/// The answer to `initialize`.
fn initialize_value(version: &str) -> (r: Value)
    ensures
        value_tree(r) == initialize_tree(version@),
{
    proof {
        reveal_strlit("protocolVersion");
        reveal_strlit("capabilities");
        reveal_strlit("serverInfo");
        reveal_strlit("name");
        reveal_strlit("version");
        assert("protocolVersion"@[0] != "capabilities"@[0]);
        assert("protocolVersion"@[0] != "serverInfo"@[0]);
        assert("capabilities"@[0] != "serverInfo"@[0]);
        assert("name"@[0] != "version"@[0]);
    }
    record3(
        "protocolVersion",
        text_value(PROTOCOL_VERSION),
        "capabilities",
        record1("tools", empty_record()),
        "serverInfo",
        record2("name", text_value("subcontext"), "version", text_value(version)),
    )
}

/// A tool.
fn tool_value(name: &str, description: &str, properties: Value) -> (r: Value)
    ensures
        value_tree(r) == tool_tree(name@, description@, value_tree(properties)),
{
    proof {
        reveal_strlit("type");
        reveal_strlit("properties");
        reveal_strlit("additionalProperties");
        assert("type"@[0] != "properties"@[0]);
        assert("type"@[0] != "additionalProperties"@[0]);
        assert("properties"@[0] != "additionalProperties"@[0]);
        reveal_strlit("name");
        reveal_strlit("description");
        reveal_strlit("inputSchema");
        assert("name"@[0] != "description"@[0]);
        assert("name"@[0] != "inputSchema"@[0]);
        assert("description"@[0] != "inputSchema"@[0]);
    }
    let schema = record3(
        "type",
        text_value("object"),
        "properties",
        properties,
        "additionalProperties",
        make_value(Parts::Bool(false)),
    );
    record3(
        "name",
        text_value(name),
        "description",
        text_value(description),
        "inputSchema",
        schema,
    )
}

/// The arguments of the deadlines tool.
fn deadlines_arguments() -> (r: Value)
    ensures
        value_tree(r) == deadlines_properties(),
{
    proof {
        reveal_strlit("type");
        reveal_strlit("description");
        reveal_strlit("default");
        assert("type"@[0] != "description"@[0]);
        assert("type"@[0] != "default"@[0]);
        assert("description"@.len() != "default"@.len());
        reveal_strlit("important_only");
        reveal_strlit("horizon");
        assert("important_only"@[0] != "horizon"@[0]);
    }
    let important = record3(
        "type",
        text_value("boolean"),
        "description",
        text_value(IMPORTANT_DESCRIPTION),
        "default",
        make_value(Parts::Bool(false)),
    );
    let horizon = record2(
        "type",
        text_value("string"),
        "description",
        text_value(HORIZON_DESCRIPTION),
    );
    record2("important_only", important, "horizon", horizon)
}

/// The answer to `tools/list`.
fn tools_value() -> (r: Value)
    ensures
        value_tree(r) == tools_tree(),
{
    let status = tool_value("subcontext_status", STATUS_DESCRIPTION, empty_record());
    let deadlines = tool_value(
        "subcontext_deadlines",
        DEADLINES_DESCRIPTION,
        deadlines_arguments(),
    );
    record1("tools", list2(status, deadlines))
}

/// The answer of a tool.
fn answer_value(text: &str, is_error: bool) -> (r: Value)
    ensures
        value_tree(r) == answer_tree(text@, is_error),
{
    proof {
        reveal_strlit("type");
        reveal_strlit("text");
        assert("type"@[1] != "text"@[1]);
        reveal_strlit("content");
        reveal_strlit("isError");
        assert("content"@[0] != "isError"@[0]);
    }
    let part = record2("type", text_value("text"), "text", text_value(text));
    record2("content", list1(part), "isError", make_value(Parts::Bool(is_error)))
}

// ─── Tools ───────────────────────────────────────────────────────────

/// Rendering the deadlines of the repository around a directory.
pub open spec fn deadlines_run(
    w: World,
    cwd: Text,
    important_only: bool,
    horizon: Option<Text>,
) -> (World, Outcome<Text>) {
    let (w, root) = find_main_run(w, cwd);
    match root {
        Err(e) => (w, Err(e)),
        Ok(root) => w.store(StoreCall::Deadlines { root, important_only, horizon }),
    }
}

/// Render the deadlines of the repository around a directory.
pub fn deadlines_text<B: Backend>(
    backend: &mut B,
    cwd: &str,
    important_only: bool,
    horizon: Option<String>,
) -> (r: Result<String, Failure>)
    ensures
        (final(backend).world(), outcome(r)) == deadlines_run(
            old(backend).world(),
            cwd@,
            important_only,
            horizon.deep_view(),
        ),
{
    let root = find_main_git_root(backend, cwd)?;
    backend.store(&StoreRequest::Deadlines { root: root.as_str(), important_only, horizon })
}

/// A report, or how it failed.
pub open spec fn shown_report(report: Outcome<Text>) -> Text {
    match report {
        Ok(text) => text,
        Err(e) => "Error: "@ + joined(e, ": "@),
    }
}

/// A report, or how it failed.
fn show_report(report: Result<String, Failure>) -> (r: String)
    ensures
        r@ == shown_report(outcome(report)),
{
    match report {
        Ok(text) => text,
        Err(e) => {
            let chain = e.chain_text();
            cat("Error: ", chain.as_str())
        },
    }
}

/// The name of the tool that a request calls.
pub open spec fn tool_called(req: JsonView) -> Text {
    match text_in(field_in(field_of(req, "params"@), "name"@)) {
        Some(name) => name,
        None => Seq::empty(),
    }
}

/// An argument of the tool that a request calls.
pub open spec fn argument(req: JsonView, name: Text) -> Option<JsonView> {
    field_in(field_in(field_of(req, "params"@), "arguments"@), name)
}

/// Does the request ask for important tasks alone?
pub open spec fn wants_important(req: JsonView) -> bool {
    argument(req, "important_only"@) == Some(JsonView::Bool(true))
}

/// The view of a working directory: its path, or why it cannot be told.
pub open spec fn place(cwd: Result<String, String>) -> Result<Text, Text> {
    match cwd {
        Ok(path) => Ok(path@),
        Err(e) => Err(e@),
    }
}

/// What a method gives: a value, none where there is no such method, or a
/// failure.
pub type Reply = Result<Option<JsonView>, Text>;

/// Calling a tool, where the walk up the ancestors ends within `steps` steps.
pub open spec fn call_within(
    w: World,
    env: EnvView,
    cwd: Result<Text, Text>,
    req: JsonView,
    steps: nat,
) -> Option<(World, Reply)> {
    let name = tool_called(req);
    if name == "subcontext_status"@ {
        match cwd {
            Err(e) => Some((w, Err(e))),
            Ok(cwd) => match status_within(w, env, cwd, steps) {
                None => None,
                Some((w, report)) => Some(
                    (w, Ok(Some(answer_tree(shown_report(report), false)))),
                ),
            },
        }
    } else if name == "subcontext_deadlines"@ {
        match cwd {
            Err(e) => Some((w, Err(e))),
            Ok(cwd) => {
                let (w, report) = deadlines_run(
                    w,
                    cwd,
                    wants_important(req),
                    text_in(argument(req, "horizon"@)),
                );
                Some((w, Ok(Some(answer_tree(shown_report(report), false)))))
            },
        }
    } else {
        Some((w, Ok(Some(answer_tree("unknown tool: "@ + name, true)))))
    }
}

/// Handling a method, where the walk up the ancestors ends within `steps` steps.
pub open spec fn method_within(
    w: World,
    env: EnvView,
    version: Text,
    cwd: Result<Text, Text>,
    method: Text,
    req: JsonView,
    steps: nat,
) -> Option<(World, Reply)> {
    if method == "initialize"@ {
        Some((w, Ok(Some(initialize_tree(version)))))
    } else if method == "tools/list"@ {
        Some((w, Ok(Some(tools_tree()))))
    } else if method == "tools/call"@ {
        call_within(w, env, cwd, req, steps)
    } else {
        Some((w, Ok(None)))
    }
}

/// The view of what a method gives.
pub open spec fn reply_view(r: Result<Option<Value>, String>) -> Reply {
    match r {
        Ok(v) => Ok(tree_option(v)),
        Err(e) => Err(e@),
    }
}

/// The field of what may be a value.
fn field_of_option(v: Option<Value>, key: &str) -> (r: Option<Value>)
    ensures
        tree_option(r) == field_in(tree_option(v), key@),
{
    match v {
        Some(v) => field(&v, key),
        None => None,
    }
}

/// An argument of the tool that a request calls.
fn request_argument(req: &Value, name: &str) -> (r: Option<Value>)
    ensures
        tree_option(r) == argument(value_tree(*req), name@),
{
    field_of_option(field_of_option(field(req, "params"), "arguments"), name)
}

/// Does the request ask for important tasks alone?
fn asks_important(req: &Value) -> (r: bool)
    ensures
        r == wants_important(value_tree(*req)),
{
    match request_argument(req, "important_only") {
        Some(v) => match open_value(v) {
            Shape::Bool(b) => b,
            _ => false,
        },
        None => false,
    }
}

/// Call a tool.
fn call_tool<B: Backend>(
    backend: &mut B,
    env: &Env,
    cwd: &Result<String, String>,
    req: &Value,
) -> (r: Result<Option<Value>, String>)
    ensures
        exists|steps: nat|
            #[trigger] call_within(
                old(backend).world(),
                env@,
                place(*cwd),
                value_tree(*req),
                steps,
            ) == Some((final(backend).world(), reply_view(r))),
{
    let ghost w0 = backend.world();
    let ghost tree = value_tree(*req);
    let ghost at_once = call_within(w0, env@, place(*cwd), tree, 0);
    let name = match as_text(field_of_option(field(req, "params"), "name")) {
        Some(name) => name,
        None => {
            let none = String::new();
            assert(none@ =~= Seq::<char>::empty());
            none
        },
    };
    if same(name.as_str(), "subcontext_status") {
        let dir = match cwd {
            Ok(dir) => dir,
            Err(e) => {
                return Err(e.clone());
            },
        };
        let report = status_text(backend, env, dir.as_str());
        proof {
            let steps = choose|steps: nat|
                #[trigger] status_within(w0, env@, dir@, steps) == Some(
                    (backend.world(), outcome(report)),
                );
            let now = call_within(w0, env@, place(*cwd), tree, steps);
        }
        let text = show_report(report);
        return Ok(Some(answer_value(text.as_str(), false)));
    }
    if same(name.as_str(), "subcontext_deadlines") {
        let important_only = asks_important(req);
        let horizon = as_text(request_argument(req, "horizon"));
        let dir = match cwd {
            Ok(dir) => dir,
            Err(e) => {
                return Err(e.clone());
            },
        };
        let report = deadlines_text(backend, dir.as_str(), important_only, horizon);
        let text = show_report(report);
        return Ok(Some(answer_value(text.as_str(), false)));
    }
    let message = cat("unknown tool: ", name.as_str());
    Ok(Some(answer_value(message.as_str(), true)))
}

/// Handle a method of a request. `version` is that of the server, `cwd` its
/// working directory or why that cannot be told.
pub fn handle_method<B: Backend>(
    backend: &mut B,
    env: &Env,
    version: &str,
    cwd: &Result<String, String>,
    method: &str,
    req: &Value,
) -> (r: Result<Option<Value>, String>)
    ensures
        exists|steps: nat|
            #[trigger] method_within(
                old(backend).world(),
                env@,
                version@,
                place(*cwd),
                method@,
                value_tree(*req),
                steps,
            ) == Some((final(backend).world(), reply_view(r))),
{
    let ghost w0 = backend.world();
    let ghost tree = value_tree(*req);
    let ghost at_once = method_within(w0, env@, version@, place(*cwd), method@, tree, 0);
    if same(method, "initialize") {
        return Ok(Some(initialize_value(version)));
    }
    if same(method, "tools/list") {
        return Ok(Some(tools_value()));
    }
    if same(method, "tools/call") {
        let r = call_tool(backend, env, cwd, req);
        proof {
            let steps = choose|steps: nat|
                #[trigger] call_within(w0, env@, place(*cwd), tree, steps) == Some(
                    (backend.world(), reply_view(r)),
                );
            let now = method_within(w0, env@, version@, place(*cwd), method@, tree, steps);
        }
        return r;
    }
    Ok(None)
}

// ─── Messages ────────────────────────────────────────────────────────

/// The method that a request names.
pub open spec fn method_named(req: JsonView) -> Text {
    match text_in(field_of(req, "method"@)) {
        Some(method) => method,
        None => Seq::empty(),
    }
}

/// An error of JSON-RPC.
pub open spec fn error_tree(code: i64, message: Text) -> JsonView {
    JsonView::Record(
        seq![
            ("code"@, JsonView::Number(integer_text(code), Some(code))),
            ("message"@, JsonView::Text(message)),
        ],
    )
}

/// The message that answers a request.
pub open spec fn message_tree(id: JsonView, method: Text, reply: Reply) -> JsonView {
    let (key, value) = match reply {
        Ok(Some(value)) => ("result"@, value),
        Ok(None) => ("error"@, error_tree(METHOD_NOT_FOUND, "method not found: "@ + method)),
        Err(message) => ("error"@, error_tree(INTERNAL_ERROR, message)),
    };
    JsonView::Record(seq![("jsonrpc"@, JsonView::Text("2.0"@)), ("id"@, id), (key, value)])
}

/// Answering a line of input, where the walk up the ancestors ends within `steps`
/// steps. There is no answer to a blank line, to one that is no JSON, and to a
/// notification, which has no id.
pub open spec fn answer_within(
    w: World,
    env: EnvView,
    version: Text,
    cwd: Result<Text, Text>,
    line: Text,
    steps: nat,
) -> Option<(World, Option<Text>)> {
    if trimmed(line).len() == 0 {
        Some((w, None))
    } else {
        match json_parsed(line) {
            Err(_) => Some((w, None)),
            Ok(req) => match method_within(
                w,
                env,
                version,
                cwd,
                method_named(req),
                req,
                steps,
            ) {
                None => None,
                Some((w, reply)) => match field_of(req, "id"@) {
                    None => Some((w, None)),
                    Some(id) => Some(
                        (w, Some(json_compact(message_tree(id, method_named(req), reply)))),
                    ),
                },
            },
        }
    }
}

/// The message that answers a request.
pub fn build_message(id: Value, method: &str, reply: Result<Option<Value>, String>) -> (r: Value)
    ensures
        value_tree(r) == message_tree(value_tree(id), method@, reply_view(reply)),
{
    proof {
        reveal_strlit("jsonrpc");
        reveal_strlit("id");
        reveal_strlit("result");
        reveal_strlit("error");
        assert("jsonrpc"@[0] != "id"@[0]);
        assert("jsonrpc"@[0] != "result"@[0]);
        assert("jsonrpc"@[0] != "error"@[0]);
        assert("id"@[0] != "result"@[0]);
        assert("id"@[0] != "error"@[0]);
        reveal_strlit("code");
        reveal_strlit("message");
        assert("code"@[0] != "message"@[0]);
    }
    match reply {
        Ok(Some(value)) => record3("jsonrpc", text_value("2.0"), "id", id, "result", value),
        Ok(None) => {
            let message = cat("method not found: ", method);
            let error = record2(
                "code",
                make_value(Parts::Integer(METHOD_NOT_FOUND)),
                "message",
                text_value(message.as_str()),
            );
            record3("jsonrpc", text_value("2.0"), "id", id, "error", error)
        },
        Err(message) => {
            let error = record2(
                "code",
                make_value(Parts::Integer(INTERNAL_ERROR)),
                "message",
                text_value(message.as_str()),
            );
            record3("jsonrpc", text_value("2.0"), "id", id, "error", error)
        },
    }
}

/// Answer a line of input, if it has an answer.
pub fn answer_line<B: Backend>(
    backend: &mut B,
    env: &Env,
    version: &str,
    cwd: &Result<String, String>,
    line: &str,
) -> (r: Option<String>)
    ensures
        exists|steps: nat|
            #[trigger] answer_within(
                old(backend).world(),
                env@,
                version@,
                place(*cwd),
                line@,
                steps,
            ) == Some((final(backend).world(), r.deep_view())),
{
    let ghost w0 = backend.world();
    let ghost at_once = answer_within(w0, env@, version@, place(*cwd), line@, 0);
    if trim(line).as_str().is_empty() {
        return None;
    }
    let req = match parse_json(line) {
        Ok(req) => req,
        Err(_) => {
            return None;
        },
    };
    let ghost tree = value_tree(req);
    let id = field(&req, "id");
    let method = match as_text(field(&req, "method")) {
        Some(method) => method,
        None => {
            let none = String::new();
            assert(none@ =~= Seq::<char>::empty());
            none
        },
    };
    let reply = handle_method(backend, env, version, cwd, method.as_str(), &req);
    proof {
        let steps = choose|steps: nat|
            #[trigger] method_within(
                w0,
                env@,
                version@,
                place(*cwd),
                method@,
                tree,
                steps,
            ) == Some((backend.world(), reply_view(reply)));
        let now = answer_within(w0, env@, version@, place(*cwd), line@, steps);
    }
    match id {
        None => None,
        Some(id) => {
            let message = build_message(id, method.as_str(), reply);
            Some(compact_json(&message))
        },
    }
}

// ─── Laws ────────────────────────────────────────────────────────────

/// A notification is never answered; a request with an id always is.
pub proof fn requests_are_answered(
    w: World,
    env: EnvView,
    version: Text,
    cwd: Result<Text, Text>,
    line: Text,
    req: JsonView,
    steps: nat,
)
    requires
        trimmed(line).len() > 0,
        json_parsed(line) == Ok::<JsonView, Text>(req),
        answer_within(w, env, version, cwd, line, steps) is Some,
    ensures
        (answer_within(w, env, version, cwd, line, steps)->0).1 is Some <==> field_of(
            req,
            "id"@,
        ) is Some,
{
}

/// An answer carries the id of its request, and either a result or an error.
pub proof fn answers_carry_the_id(id: JsonView, method: Text, reply: Reply)
    ensures
        field_of(message_tree(id, method, reply), "id"@) == Some(id),
        field_of(message_tree(id, method, reply), "result"@) is Some <==> field_of(
            message_tree(id, method, reply),
            "error"@,
        ) is None,
        field_of(message_tree(id, method, reply), "result"@) is Some <==> reply is Ok
            && reply->Ok_0 is Some,
{
    reveal_strlit("jsonrpc");
    reveal_strlit("id");
    reveal_strlit("result");
    reveal_strlit("error");
    assert("jsonrpc"@[0] != "id"@[0]);
    assert("jsonrpc"@[0] != "result"@[0]);
    assert("jsonrpc"@[0] != "error"@[0]);
    assert("id"@[0] != "result"@[0]);
    assert("id"@[0] != "error"@[0]);
    assert("result"@[0] != "error"@[0]);
    let entries = message_tree(id, method, reply)->Record_0;
    crate::json::lemma_key_position_is(entries, "id"@, 1);
    if reply is Ok && reply->Ok_0 is Some {
        crate::json::lemma_key_position_is(entries, "result"@, 2);
        crate::json::lemma_key_position_is(entries, "error"@, 3);
    } else {
        crate::json::lemma_key_position_is(entries, "result"@, 3);
        crate::json::lemma_key_position_is(entries, "error"@, 2);
    }
}

/// An answer is one: where the walk up the ancestors ends, it is the same however
/// many steps that may take.
pub proof fn answer_is_one(
    w: World,
    env: EnvView,
    version: Text,
    cwd: Result<Text, Text>,
    line: Text,
    steps: nat,
    more: nat,
)
    requires
        answer_within(w, env, version, cwd, line, steps) is Some,
        steps <= more,
    ensures
        answer_within(w, env, version, cwd, line, more) == answer_within(
            w,
            env,
            version,
            cwd,
            line,
            steps,
        ),
{
    if trimmed(line).len() > 0 && json_parsed(line) is Ok && cwd is Ok {
        let req = json_parsed(line)->Ok_0;
        if status_within(w, env, cwd->Ok_0, steps) is Some {
            status_is_one(w, env, cwd->Ok_0, steps, more);
        }
    }
}

/// A method that the server does not know asks nothing of the outside, and is
/// told by the code for that.
pub proof fn unknown_methods_are_told(
    w: World,
    env: EnvView,
    version: Text,
    cwd: Result<Text, Text>,
    method: Text,
    req: JsonView,
    id: JsonView,
    steps: nat,
)
    requires
        method != "initialize"@,
        method != "tools/list"@,
        method != "tools/call"@,
    ensures
        method_within(w, env, version, cwd, method, req, steps) == Some(
            (w, Ok::<Option<JsonView>, Text>(None)),
        ),
        field_of(message_tree(id, method, Ok(None)), "error"@) == Some(
            error_tree(METHOD_NOT_FOUND, "method not found: "@ + method),
        ),
{
    let entries = message_tree(id, method, Ok(None))->Record_0;
    reveal_strlit("jsonrpc");
    reveal_strlit("id");
    reveal_strlit("error");
    assert("jsonrpc"@[0] != "error"@[0]);
    assert("id"@[0] != "error"@[0]);
    crate::json::lemma_key_position_is(entries, "error"@, 2);
}

} // verus!
