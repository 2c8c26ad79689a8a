//! What is told to the user and to an agent harness.

use vstd::prelude::*;

use crate::environment::{home_of, EnvView};
use crate::git::{config_path, current_branch_run, find_main_run};
use crate::json::{document_text, field_in, field_of, json_parsed, text_in, JsonView};
use crate::laws::global::{holds, value_is_on_its_line};
use crate::laws::places::{at_or_above, lemma_above_shorter, no_git, none_below};
use crate::mcp::{call_within, initialize_tree, method_within, tools_tree};
use crate::mcp_config::{
    config_unmerged, config_with, install_global_run, merge_at_run, remove_run,
};
use crate::paths::{is_rooted, lemma_parent_shorter, parent_of, parts, path_join};
use crate::project::{read_kind_run, read_uuid_run};
use crate::propagate::{ambiguous, match_line, match_lines, MatchView};
use crate::status::{
    ancestors_text, ancestry_line_within, branch_line_of, changes_text, global_line_run, indented,
    overlay_lines_run, place_lines, report_within, roots_above, roots_run, state_line,
    status_within, uuid_line_run,
};
use crate::text::{decimal, joined, lines_of, occurs, stands_at, trimmed, Text};
use crate::trace::{did, group_did, Step};
use crate::world::{Call, StoreCall, World};

verus! {

broadcast use group_did;

// ─── The configuration of an agent harness ───────────────────────────

/// Was this the configuration at the path: an empty record where there is no file
/// or it is blank?
pub open spec fn config_read(w0: World, w: World, path: Text, config: JsonView) -> bool {
    ||| config == JsonView::Record(Seq::empty()) && did(w0, w, seq![Step::No(Call::Exists(path))])
    ||| exists|content: Text| #[trigger]
        did(w0, w, seq![Step::Told(Call::Read(path), content)]) && if trimmed(content).len() == 0 {
            config == JsonView::Record(Seq::empty())
        } else {
            json_parsed(content) == Ok::<JsonView, Text>(config)
        }
}

/// Merging a server writes the configuration that was there, with the server
/// merged into it, to the same path.
pub proof fn server_is_written_to_the_configuration(
    w: World,
    path: Text,
    file: Text,
    entry: JsonView,
)
    requires
        merge_at_run(w, path, file, entry).1 is Ok,
    ensures
        ({
            let after = merge_at_run(w, path, file, entry).0;
            exists|config: JsonView, merged: JsonView| #[trigger]
                config_read(w, after, path, config) && #[trigger] did(
                    w,
                    after,
                    seq![Step::Wrote(path, document_text(merged))],
                ) && config_with(config, file, entry) == Ok::<JsonView, Seq<Text>>(merged)
        }),
{
    let after = merge_at_run(w, path, file, entry).0;
    let (w1, there) = w.path_exists(path);
    let (w2, content) = w1.read(path);
    let config = if !there || trimmed(content->Ok_0).len() == 0 {
        JsonView::Record(Seq::empty())
    } else {
        json_parsed(content->Ok_0)->Ok_0
    };
    let merged = config_with(config, file, entry)->Ok_0;
    if there {
        assert(did(w, after, seq![Step::Told(Call::Read(path), content->Ok_0)]));
    } else {
        assert(did(w, after, seq![Step::No(Call::Exists(path))]));
    }
    assert(config_read(w, after, path, config));
    assert(did(w, after, seq![Step::Wrote(path, document_text(merged))]));
}

/// Installing the server for every project merges one that runs this program into
/// the configuration in the home directory.
pub proof fn global_server_runs_this_program(w: World, env: EnvView)
    requires
        install_global_run(w, env).1 is Ok,
    ensures
        ({
            let after = install_global_run(w, env).0;
            let path = path_join(home_of(env)->0, env.agent.config_file());
            &&& home_of(env) is Some
            &&& exists|exe: Text, between: World, config: JsonView, merged: JsonView| #[trigger]
                did(w, between, seq![Step::Told(Call::CurrentExe, exe)]) && #[trigger] config_read(
                    between,
                    after,
                    path,
                    config,
                ) && #[trigger] did(
                    between,
                    after,
                    seq![Step::Wrote(path, document_text(merged))],
                ) && config_with(
                    config,
                    "~/"@ + env.agent.config_file(),
                    running(exe),
                ) == Ok::<JsonView, Seq<Text>>(merged)
        }),
{
    let path = path_join(home_of(env)->0, env.agent.config_file());
    let (w1, exe) = w.current_exe();
    let exe = exe->Ok_0;
    assert(did(w, w1, seq![Step::Told(Call::CurrentExe, exe)]));
    let entry = crate::mcp_config::global_server_tree(exe);
    assert(entry == running(exe));
    server_is_written_to_the_configuration(
        w1,
        path,
        "~/"@ + env.agent.config_file(),
        entry,
    );
}

/// The server that runs a program with the argument `mcp`.
pub open spec fn running(exe: Text) -> JsonView {
    JsonView::Record(
        seq![
            ("type"@, JsonView::Text("stdio"@)),
            ("command"@, JsonView::Text(exe)),
            ("args"@, JsonView::List(seq![JsonView::Text("mcp"@)])),
        ],
    )
}

/// Removing our server leaves a configuration without it: rewritten, or the file
/// removed where nothing is left; a configuration that does not hold it is left.
pub proof fn server_is_taken_out_of_the_configuration(w: World, root: Text)
    requires
        remove_run(w, root).1 is Ok,
    ensures
        ({
            let after = remove_run(w, root).0;
            let path = path_join(root, ".mcp.json"@);
            ||| did(w, after, seq![Step::No(Call::Exists(path))])
            ||| exists|content: Text| #[trigger]
                did(w, after, seq![Step::Told(Call::Read(path), content)]) && (trimmed(
                    content,
                ).len() == 0 || (json_parsed(content) is Ok && match config_unmerged(
                    json_parsed(content)->Ok_0,
                ) {
                    None => true,
                    Some(JsonView::Record(left)) => if left.len() == 0 {
                        did(w, after, seq![Step::Well(Call::RemoveFile(path))])
                    } else {
                        did(
                            w,
                            after,
                            seq![
                                Step::Wrote(path, document_text(JsonView::Record(left))),
                            ],
                        )
                    },
                    Some(_) => false,
                }))
        }),
{
    let after = remove_run(w, root).0;
    let path = path_join(root, ".mcp.json"@);
    let (w1, there) = w.path_exists(path);
    let (w2, content) = w1.read(path);
    if there {
        let content = content->Ok_0;
        assert(did(w, w2, seq![Step::Told(Call::Read(path), content)]));
        assert(did(w, after, seq![Step::Told(Call::Read(path), content)]));
    }
}

// ─── The server's tools ──────────────────────────────────────────────

/// An answer that is a text.
pub open spec fn text_answer(text: Text, is_error: bool) -> JsonView {
    JsonView::Record(
        seq![
            (
                "content"@,
                JsonView::List(
                    seq![
                        JsonView::Record(
                            seq![
                                ("type"@, JsonView::Text("text"@)),
                                ("text"@, JsonView::Text(text)),
                            ],
                        ),
                    ],
                ),
            ),
            ("isError"@, JsonView::Bool(is_error)),
        ],
    )
}

/// What an argument of the tool call is.
pub open spec fn given(req: JsonView, name: Text) -> Option<JsonView> {
    field_in(field_in(field_of(req, "params"@), "arguments"@), name)
}

/// Does the request call the tool of this name?
pub open spec fn calls(req: JsonView, name: Text) -> bool {
    text_in(field_in(field_of(req, "params"@), "name"@)) == Some(name)
}

/// The tool for deadlines asks the task store of the main checkout for them, the
/// important ones alone where that was asked for and up to the horizon that was
/// given, and answers with what the store renders, or with the failure.
pub proof fn deadlines_are_asked_for(
    w: World,
    env: EnvView,
    cwd: Text,
    req: JsonView,
    steps: nat,
)
    requires
        calls(req, "subcontext_deadlines"@),
    ensures
        ({
            let end = call_within(w, env, Ok(cwd), req, steps);
            let (w1, root) = find_main_run(w, cwd);
            let call = Call::Store(
                StoreCall::Deadlines {
                    root: root->Ok_0,
                    important_only: given(req, "important_only"@) == Some(JsonView::Bool(true)),
                    horizon: text_in(given(req, "horizon"@)),
                },
            );
            &&& end is Some
            &&& match root {
                Err(e) => end == Some(
                    (w1, Ok::<Option<JsonView>, Text>(Some(text_answer("Error: "@ + joined(e, ": "@), false)))),
                ),
                Ok(_) => exists|text: Text|
                    (end->0).1 == Ok::<Option<JsonView>, Text>(Some(#[trigger] text_answer(
                        text,
                        false,
                    ))) && (did(w1, (end->0).0, seq![Step::Told(call, text)]) || did(
                        w1,
                        (end->0).0,
                        seq![Step::Ill(call)],
                    )),
            }
        }),
{
    reveal_strlit("subcontext_status");
    reveal_strlit("subcontext_deadlines");
    assert("subcontext_status"@.len() != "subcontext_deadlines"@.len());
    let (w1, root) = find_main_run(w, cwd);
    if root is Ok {
        let call = StoreCall::Deadlines {
            root: root->Ok_0,
            important_only: given(req, "important_only"@) == Some(JsonView::Bool(true)),
            horizon: text_in(given(req, "horizon"@)),
        };
        let (w2, told) = w1.store(call);
        let text = crate::mcp::shown_report(told);
        assert(crate::mcp::answer_tree(text, false) == text_answer(text, false));
        if told is Ok {
            assert(did(w1, w2, seq![Step::Told(Call::Store(call), text)]));
        } else {
            assert(did(w1, w2, seq![Step::Ill(Call::Store(call))]));
        }
    }
}

/// The tool for the status answers with the report, or with the failure.
pub proof fn status_is_answered(
    w: World,
    env: EnvView,
    cwd: Text,
    req: JsonView,
    steps: nat,
)
    requires
        calls(req, "subcontext_status"@),
        status_within(w, env, cwd, steps) is Some,
    ensures
        ({
            let (after, report) = status_within(w, env, cwd, steps)->0;
            let text = match report {
                Ok(text) => text,
                Err(e) => "Error: "@ + joined(e, ": "@),
            };
            call_within(w, env, Ok(cwd), req, steps) == Some(
                (after, Ok::<Option<JsonView>, Text>(Some(text_answer(text, false)))),
            )
        }),
{
}

/// A tool that the server does not have is told as an error, by its name.
pub proof fn unknown_tools_are_told(
    w: World,
    env: EnvView,
    cwd: Result<Text, Text>,
    req: JsonView,
    name: Text,
    steps: nat,
)
    requires
        calls(req, name),
        name != "subcontext_status"@,
        name != "subcontext_deadlines"@,
    ensures
        call_within(w, env, cwd, req, steps) == Some(
            (w, Ok::<Option<JsonView>, Text>(Some(text_answer("unknown tool: "@ + name, true)))),
        ),
{
}

/// The methods of the protocol lead where they should: the first tells the
/// version of the protocol and of the server, the second lists both tools, the
/// third calls one.
pub proof fn methods_do_what_they_name(
    w: World,
    env: EnvView,
    version: Text,
    cwd: Result<Text, Text>,
    req: JsonView,
    steps: nat,
)
    ensures
        method_within(w, env, version, cwd, "initialize"@, req, steps) == Some(
            (w, Ok::<Option<JsonView>, Text>(Some(initialize_tree(version)))),
        ),
        method_within(w, env, version, cwd, "tools/list"@, req, steps) == Some(
            (w, Ok::<Option<JsonView>, Text>(Some(tools_tree()))),
        ),
        method_within(w, env, version, cwd, "tools/call"@, req, steps) == call_within(
            w,
            env,
            cwd,
            req,
            steps,
        ),
        initialize_tree(version) == JsonView::Record(
            seq![
                ("protocolVersion"@, JsonView::Text("2024-11-05"@)),
                (
                    "capabilities"@,
                    JsonView::Record(seq![("tools"@, JsonView::Record(Seq::empty()))]),
                ),
                (
                    "serverInfo"@,
                    JsonView::Record(
                        seq![
                            ("name"@, JsonView::Text("subcontext"@)),
                            ("version"@, JsonView::Text(version)),
                        ],
                    ),
                ),
            ],
        ),
        tools_tree()->Record_0[0].0 == "tools"@,
        ({
            let tools = tools_tree()->Record_0[0].1->List_0;
            &&& tools.len() == 2
            &&& tools[0]->Record_0[0] == ("name"@, JsonView::Text("subcontext_status"@))
            &&& tools[1]->Record_0[0] == ("name"@, JsonView::Text("subcontext_deadlines"@))
        }),
{
    reveal_strlit("initialize");
    reveal_strlit("tools/list");
    reveal_strlit("tools/call");
    assert("initialize"@[0] != "tools/list"@[0]);
    assert("initialize"@[0] != "tools/call"@[0]);
    assert("tools/list"@[6] != "tools/call"@[6]);
}

// ─── The status ──────────────────────────────────────────────────────

/// Did the configuration in the directory tell this value for the label?
pub open spec fn config_told(w0: World, w: World, dir: Text, label: Text, value: Text) -> bool {
    exists|content: Text| #[trigger]
        did(
            w0,
            w,
            seq![Step::Told(Call::Read(path_join(dir, "subcontext.yaml"@)), content)],
        ) && holds(content, label, value)
}

/// The status shows the UUID and the kind of the subcontext, as its configuration
/// tells them; a kind that is not told is `unknown`. Nothing is shown where there
/// is no subcontext or its UUID is not told.
pub proof fn own_line_shows_the_uuid(w: World, main_root: Text)
    ensures
        ({
            let (after, line) = uuid_line_run(w, main_root);
            let dir = config_path(main_root);
            let sc = path_join(path_join(main_root, ".git"@), ".subcontext"@);
            ||| line.len() == 0 && did(w, after, seq![Step::No(Call::IsDir(sc))])
            ||| line.len() == 0 && did(w, after, seq![Step::Yes(Call::IsDir(sc))])
                && read_uuid_run(w.is_dir(sc).0, dir).1 is Err
            ||| did(w, after, seq![Step::Yes(Call::IsDir(sc))]) && exists|uuid: Text, kind: Text|
                line == #[trigger] titled("UUID:        "@, uuid, kind) && config_told(
                    w,
                    after,
                    dir,
                    "project_uuid:"@,
                    uuid,
                ) && (kind == "unknown"@ || config_told(w, after, dir, "kind:"@, kind))
        }),
{
    let (after, line) = uuid_line_run(w, main_root);
    let dir = config_path(main_root);
    let sc = path_join(path_join(main_root, ".git"@), ".subcontext"@);
    let (w1, installed) = w.is_dir(sc);
    if installed {
        let path = path_join(dir, "subcontext.yaml"@);
        let (w2, uuid) = read_uuid_run(w1, dir);
        assert(did(w, w2, seq![Step::Yes(Call::IsDir(sc))]));
        if uuid is Ok {
            let (r, content) = w1.read(path);
            value_is_on_its_line(content->Ok_0, "project_uuid:"@, uuid->Ok_0);
            assert(did(w, w2, seq![Step::Told(Call::Read(path), content->Ok_0)]));
            let (w3, kind) = read_kind_run(w2, dir);
            assert(did(w, w3, seq![Step::Told(Call::Read(path), content->Ok_0)]));
            assert(config_told(w, after, dir, "project_uuid:"@, uuid->Ok_0));
            let told = match kind {
                Ok(kind) => kind,
                Err(_) => "unknown"@,
            };
            if kind is Ok {
                let (r2, second) = w2.read(path);
                value_is_on_its_line(second->Ok_0, "kind:"@, kind->Ok_0);
                assert(did(w, w3, seq![Step::Told(Call::Read(path), second->Ok_0)]));
                assert(config_told(w, after, dir, "kind:"@, kind->Ok_0));
            }
            assert(line == titled("UUID:        "@, uuid->Ok_0, told));
        }
    }
}

/// A line of the status with a UUID and a kind.
pub open spec fn titled(label: Text, uuid: Text, kind: Text) -> Text {
    label + uuid + " ("@ + kind + ")\n"@
}

proof fn lemma_occurs(before: Text, part: Text, after: Text)
    ensures
        occurs(before + part + after, part),
{
    let whole = before + part + after;
    let at = before.len() as int;
    assert(whole.subrange(at, at + part.len()) =~= part);
    assert(stands_at(whole, part, at));
}

proof fn lemma_parts_occur(a: Text, b: Text, c: Text, d: Text, e: Text, f: Text, g: Text)
    ensures
        occurs(a + b + c + d + e + f + g, a),
        occurs(a + b + c + d + e + f + g, b),
        occurs(a + b + c + d + e + f + g, c),
        occurs(a + b + c + d + e + f + g, d),
        occurs(a + b + c + d + e + f + g, e),
        occurs(a + b + c + d + e + f + g, f),
        occurs(a + b + c + d + e + f + g, g),
{
    let text = a + b + c + d + e + f + g;
    let none = Seq::<char>::empty();
    lemma_occurs(none, a, b + c + d + e + f + g);
    assert(none + a + (b + c + d + e + f + g) =~= text);
    lemma_occurs(a, b, c + d + e + f + g);
    assert(a + b + (c + d + e + f + g) =~= text);
    lemma_occurs(a + b, c, d + e + f + g);
    assert(a + b + c + (d + e + f + g) =~= text);
    lemma_occurs(a + b + c, d, e + f + g);
    assert(a + b + c + d + (e + f + g) =~= text);
    lemma_occurs(a + b + c + d, e, f + g);
    assert(a + b + c + d + e + (f + g) =~= text);
    lemma_occurs(a + b + c + d + e, f, g);
    lemma_occurs(a + b + c + d + e + f, g, none);
    assert(a + b + c + d + e + f + g + none =~= text);
}

/// The status shows the branch that is checked out, whether a subcontext is
/// installed, and behind these the lines on the overlay, on the subcontext's
/// UUID, on the system subcontext and on the ancestry.
pub proof fn report_shows_every_line(
    w: World,
    env: EnvView,
    current_root: Text,
    main_root: Text,
    steps: nat,
)
    requires
        report_within(w, env, current_root, main_root, steps) is Some,
    ensures
        ({
            let (after, text) = report_within(w, env, current_root, main_root, steps)->0;
            let (w1, branch) = current_branch_run(w, current_root);
            let (w2, installed) = w1.is_dir(
                path_join(path_join(main_root, ".git"@), ".subcontext"@),
            );
            let (w3, overlay) = overlay_lines_run(w2, current_root, branch, installed);
            let (w4, own) = uuid_line_run(w3, main_root);
            let (w5, system) = global_line_run(w4, env);
            let ancestry = ancestry_line_within(w5, env, main_root, steps);
            &&& occurs(
                text,
                match branch {
                    Ok(name) => "Branch:      "@ + name + "\n"@,
                    Err(_) => "Branch:      (detached HEAD)\n"@,
                },
            )
            &&& occurs(
                text,
                if !installed {
                    "Subcontext:  not installed\n"@
                } else if parts(current_root) != parts(main_root) {
                    "Subcontext:  installed (in main repo)\n"@
                } else {
                    "Subcontext:  installed\n"@
                },
            )
            &&& parts(current_root) != parts(main_root) ==> occurs(
                text,
                "Worktree:    "@ + current_root + "\nMain repo:   "@ + main_root + "\n"@,
            )
            &&& parts(current_root) == parts(main_root) ==> occurs(
                text,
                "Main repo:   "@ + current_root + "\nWorktree:    no (this is the main checkout)\n"@,
            )
            &&& occurs(text, overlay)
            &&& occurs(text, own)
            &&& occurs(text, system)
            &&& ancestry is Some && occurs(text, (ancestry->0).1)
        }),
{
    let (after, text) = report_within(w, env, current_root, main_root, steps)->0;
    let (w1, branch) = current_branch_run(w, current_root);
    let (w2, installed) = w1.is_dir(path_join(path_join(main_root, ".git"@), ".subcontext"@));
    let (w3, overlay) = overlay_lines_run(w2, current_root, branch, installed);
    let (w4, own) = uuid_line_run(w3, main_root);
    let (w5, system) = global_line_run(w4, env);
    let ancestry = (ancestry_line_within(w5, env, main_root, steps)->0).1;
    let a = place_lines(current_root, main_root);
    let b = branch_line_of(branch);
    let c = state_line(parts(current_root) != parts(main_root), installed);
    assert(text == a + b + c + overlay + own + system + ancestry);
    lemma_parts_occur(a, b, c, overlay, own, system, ancestry);
}

proof fn lemma_indented(lines: Seq<Text>, k: int)
    requires
        0 <= k < lines.len(),
    ensures
        occurs(indented(lines), "  "@ + lines[k] + "\n"@),
    decreases lines.len(),
{
    let front = lines.drop_last();
    let last = "  "@ + lines.last() + "\n"@;
    if k < front.len() {
        assert(front[k] == lines[k]);
        lemma_indented(front, k);
        let line = "  "@ + lines[k] + "\n"@;
        let at = choose|at: int| stands_at(indented(front), line, at);
        let whole = indented(front) + last;
        assert(whole.subrange(at, at + line.len()) =~= indented(front).subrange(
            at,
            at + line.len(),
        ));
        assert(stands_at(whole, line, at));
    } else {
        lemma_occurs(indented(front), last, Seq::empty());
        assert(indented(front) + last + Seq::<char>::empty() =~= indented(lines));
    }
}

/// The status shows every pending change of the overlay on a line of its own, and
/// says where there are none.
pub proof fn every_change_is_shown(listed: Text)
    ensures
        lines_of(listed).len() == 0 ==> changes_text(listed) == "Changes:     none\n"@,
        forall|k: int|
            0 <= k < lines_of(listed).len() ==> occurs(
                changes_text(listed),
                "  "@ + #[trigger] lines_of(listed)[k] + "\n"@,
            ),
{
    let lines = lines_of(listed);
    assert forall|k: int| 0 <= k < lines.len() implies occurs(
        changes_text(listed),
        "  "@ + #[trigger] lines[k] + "\n"@,
    ) by {
        lemma_indented(lines, k);
        let line = "  "@ + lines[k] + "\n"@;
        let head = "Changes:\n"@;
        let at = choose|at: int| stands_at(indented(lines), line, at);
        let whole = head + indented(lines);
        assert(whole.subrange(head.len() + at, head.len() + at + line.len()) =~= indented(
            lines,
        ).subrange(at, at + line.len()));
        assert(stands_at(whole, line, head.len() + at));
    }
}

/// The status shows each of the ancestors, with its kind.
pub proof fn every_ancestor_is_shown(chain: Seq<(Text, Text)>, k: int)
    requires
        0 <= k < chain.len(),
    ensures
        occurs(ancestors_text(chain), chain[k].0 + " ("@ + chain[k].1 + ")"@),
    decreases chain.len(),
{
    let front = chain.drop_last();
    let between = if chain.len() > 1 {
        " -> "@
    } else {
        Seq::empty()
    };
    let last = chain.last().0 + " ("@ + chain.last().1 + ")"@;
    if k < front.len() {
        assert(front[k] == chain[k]);
        every_ancestor_is_shown(front, k);
        let part = chain[k].0 + " ("@ + chain[k].1 + ")"@;
        let at = choose|at: int| stands_at(ancestors_text(front), part, at);
        let whole = ancestors_text(chain);
        assert(whole =~= ancestors_text(front) + (between + last));
        assert(whole.subrange(at, at + part.len()) =~= ancestors_text(front).subrange(
            at,
            at + part.len(),
        ));
        assert(stands_at(whole, part, at));
    } else {
        lemma_occurs(ancestors_text(front) + between, last, Seq::empty());
        assert(ancestors_text(front) + between + last + Seq::<char>::empty() =~= ancestors_text(
            chain,
        ));
    }
}

/// The server of a project runs `git subcontext mcp`.
pub proof fn project_server_runs_the_subcommand()
    ensures
        crate::mcp_config::server_tree() == JsonView::Record(
            seq![
                ("command"@, JsonView::Text("git"@)),
                (
                    "args"@,
                    JsonView::List(seq![JsonView::Text("subcontext"@), JsonView::Text("mcp"@)]),
                ),
            ],
        ),
{
}

// ─── The roots that the status is about ──────────────────────────────

/// Is this the main checkout that belongs to the one in the directory: the same
/// where its `.git` is a directory, else the one that its `.git` file leads to?
pub open spec fn is_main_of(w0: World, w: World, dir: Text, main_root: Text) -> bool {
    let dot = path_join(dir, ".git"@);
    ||| main_root == dir && did(w0, w, seq![Step::Yes(Call::IsDir(dot))])
    ||| exists|content: Text, gitdir: Text| #[trigger]
        did(w0, w, gitdir_resolved(dir, content, gitdir)) && crate::git::great_parent(gitdir)
            is Some && parent_of(crate::git::great_parent(gitdir)->0) == Some(main_root)
}

/// The `.git` file of a linked worktree was read, and the path in it resolved.
pub open spec fn gitdir_resolved(dir: Text, content: Text, gitdir: Text) -> Seq<Step> {
    let dot = path_join(dir, ".git"@);
    let named = crate::git::gitdir_in(content);
    seq![Step::Yes(Call::IsFile(dot))].push(Step::Told(Call::Read(dot), content)).push(
        Step::Told(
            Call::Canonicalize(
                if is_rooted(named) {
                    named
                } else {
                    path_join(dir, named)
                },
            ),
            gitdir,
        ),
    )
}

proof fn lemma_kept_by_roots(w0: World, w: World, dir: Text, steps: Seq<Step>)
    requires
        did(w0, w, steps),
    ensures
        did(w0, roots_above(w, dir).0, steps),
    decreases dir.len(),
{
    lemma_parent_shorter(dir);
    let dot = path_join(dir, ".git"@);
    let (w1, is_dir) = w.is_dir(dot);
    assert(did(w0, w1, steps));
    if !is_dir {
        let (w2, is_file) = w1.is_file(dot);
        assert(did(w0, w2, steps));
        if is_file {
            let (w3, contents) = w2.read(dot);
            assert(did(w0, w3, steps));
        } else if parent_of(dir) is Some {
            lemma_kept_by_roots(w0, w2, parent_of(dir)->0, steps);
        }
    }
}

proof fn lemma_roots(w0: World, w: World, dir: Text)
    requires
        did(w0, w, Seq::empty()),
    ensures
        roots_above(w, dir).1 matches Ok(roots) ==> {
            let after = roots_above(w, dir).0;
            &&& at_or_above(roots.0, dir)
            &&& none_below(w0, after, roots.0, dir)
            &&& is_main_of(w0, after, roots.0, roots.1)
        },
    decreases dir.len(),
{
    lemma_parent_shorter(dir);
    let dot = path_join(dir, ".git"@);
    let (after, found) = roots_above(w, dir);
    let (w1, is_dir) = w.is_dir(dot);
    if is_dir {
        assert(did(w0, after, seq![Step::Yes(Call::IsDir(dot))]));
    } else {
        let (w2, is_file) = w1.is_file(dot);
        assert(did(w0, w2, Seq::empty()));
        if is_file {
            if found is Ok {
                let (w3, content) = w2.read(dot);
                let content = content->Ok_0;
                let named = crate::git::gitdir_in(content);
                let path = if is_rooted(named) {
                    named
                } else {
                    path_join(dir, named)
                };
                let (w4, gitdir) = w3.canonicalize(path);
                assert(did(w0, after, gitdir_resolved(dir, content, gitdir->Ok_0)));
            }
        } else if parent_of(dir) is Some {
            let up = parent_of(dir)->0;
            lemma_roots(w0, w2, up);
            let no = seq![Step::No(Call::IsDir(dot))].push(Step::No(Call::IsFile(dot)));
            assert(did(w0, w2, no));
            lemma_kept_by_roots(w0, w2, up, no);
            if found is Ok {
                assert(no_git(w0, after, dir));
                lemma_above_shorter(found->Ok_0.0, up);
            }
        }
    }
}

/// The status is about the nearest checkout: the one in the directory where the
/// search starts or in the next one above that has a `.git`, and about the main
/// checkout that it belongs to.
pub proof fn status_is_about_the_nearest_checkout(w: World, start: Text)
    requires
        roots_run(w, start).1 is Ok,
    ensures
        ({
            let (after, found) = roots_run(w, start);
            let (current, main_root) = found->Ok_0;
            exists|dir: Text| #[trigger]
                did(w, after, seq![Step::Told(Call::Canonicalize(start), dir)]) && at_or_above(
                    current,
                    dir,
                ) && none_below(w, after, current, dir) && is_main_of(w, after, current, main_root)
        }),
{
    let (w1, dir) = w.canonicalize(start);
    let dir = dir->Ok_0;
    assert(did(w, w1, seq![Step::Told(Call::Canonicalize(start), dir)]));
    lemma_roots(w, w1, dir);
    lemma_kept_by_roots(w, w1, dir, seq![Step::Told(Call::Canonicalize(start), dir)]);
}

/// The status that is asked for is the report on the checkout that is found.
pub proof fn status_reports_on_what_is_found(w: World, env: EnvView, cwd: Text, steps: nat)
    requires
        roots_run(w, cwd).1 is Ok,
        status_within(w, env, cwd, steps) is Some,
    ensures
        ({
            let (w1, roots) = roots_run(w, cwd);
            let (after, text) = status_within(w, env, cwd, steps)->0;
            text is Ok && report_within(w1, env, roots->Ok_0.0, roots->Ok_0.1, steps) == Some(
                (after, text->Ok_0),
            )
        }),
{
}

// ─── Tasks of one name ───────────────────────────────────────────────

proof fn lemma_match_shown(matches: Seq<MatchView>, k: int)
    requires
        0 <= k < matches.len(),
    ensures
        occurs(match_lines(matches), match_line(matches[k])),
    decreases matches.len(),
{
    let front = match_lines(matches.drop_last());
    let line = match_line(matches[k]);
    let whole = match_lines(matches);
    if k == matches.len() - 1 {
        let at = front.len() as int;
        assert(whole.subrange(at, at + line.len()) =~= line);
        assert(stands_at(whole, line, at));
    } else {
        lemma_match_shown(matches.drop_last(), k);
        let at = choose|at: int| #[trigger] stands_at(front, line, at);
        assert(whole.subrange(at, at + line.len()) =~= front.subrange(at, at + line.len()));
        assert(stands_at(whole, line, at));
    }
}

/// Where a name fits several tasks, the message names it and shows a line for
/// each of them, with its UUID, its branch and its description.
pub proof fn every_match_is_shown(name: Text, matches: Seq<MatchView>, k: int)
    requires
        0 <= k < matches.len(),
    ensures
        ("Multiple tasks match '"@ + name + "'"@).is_prefix_of(ambiguous(name, matches)),
        occurs(
            ambiguous(name, matches),
            "  "@ + matches[k].uuid + " (branch: "@ + matches[k].branch + ") — "@ + (
            match matches[k].description {
                Some(description) => description,
                None => "(no description)"@,
            }) + "\n"@,
        ),
{
    lemma_match_shown(matches, k);
    let lines = match_lines(matches);
    let line = match_line(matches[k]);
    let whole = ambiguous(name, matches);
    let head = "Multiple tasks match '"@ + name + "' ("@ + decimal(matches.len())
        + " matches):\n"@;
    assert(whole =~= head + lines);
    let at = choose|at: int| #[trigger] stands_at(lines, line, at);
    assert(whole.subrange(head.len() + at, head.len() + at + line.len()) =~= lines.subrange(
        at,
        at + line.len(),
    ));
    assert(stands_at(whole, line, head.len() + at));
    reveal_strlit("'");
    reveal_strlit("' (");
    let start = "Multiple tasks match '"@ + name;
    assert(whole.take(start.len() as int + 1) =~= start + "'"@);
}

} // verus!
