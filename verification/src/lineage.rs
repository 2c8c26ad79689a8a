//! The family of managed subcontexts: who is whose child.

use serde_json::Value;
use vstd::prelude::*;

use crate::backend::{argv1, Backend};
use crate::dolt::{column, row_trees, DoltConnection, DoltRow, DoltView};
use crate::environment::{Env, EnvView};
use crate::failure::{fail, failed, outcome, Failure, Outcome};
use crate::global::{
    base_of, exists_run, global_exists, global_repo_dir, kind_run, managed_kind, open_system,
    parent_query, query_text, repo_in, root_of, system_run, text_query_run,
};
use crate::json::JsonView;
use crate::order::{sort_pairs, sorted_pairs};
use crate::text::{cat, cat3, occurs, same, stands_at, Text};
use crate::world::World;

verus! {

// ─── Rows ────────────────────────────────────────────────────────────

/// The texts in the first column of the rows from the `i`-th on, behind those in
/// `found`; or the first failure among them.
pub open spec fn texts_read(rows: Seq<Seq<JsonView>>, i: nat, found: Seq<Text>) -> Outcome<Seq<Text>>
    decreases rows.len() - i,
{
    if i >= rows.len() {
        Ok(found)
    } else {
        match column::<String>(rows[i as int], 0) {
            Err(e) => Err(e),
            Ok(text) => texts_read(rows, i + 1, found.push(text)),
        }
    }
}

/// The pairs in the first two columns of the rows from the `i`-th on, behind
/// those in `found`; or the first failure among them.
pub open spec fn pairs_read(rows: Seq<Seq<JsonView>>, i: nat, found: Seq<(Text, Text)>) -> Outcome<
    Seq<(Text, Text)>,
>
    decreases rows.len() - i,
{
    if i >= rows.len() {
        Ok(found)
    } else {
        match (column::<String>(rows[i as int], 0), column::<String>(rows[i as int], 1)) {
            (Err(e), _) => Err(e),
            (_, Err(e)) => Err(e),
            (Ok(first), Ok(second)) => pairs_read(rows, i + 1, found.push((first, second))),
        }
    }
}

/// Read the texts in the first column of rows.
fn read_texts(rows: &Vec<Vec<Value>>) -> (r: Result<Vec<String>, Failure>)
    ensures
        outcome(r) == texts_read(row_trees(rows@), 0, Seq::empty()),
{
    let ghost all = row_trees(rows@);
    let mut out: Vec<String> = Vec::new();
    let mut i: usize = 0;
    assert(out.deep_view() =~= Seq::<Text>::empty());
    assert(all.len() == rows@.len());
    while i < rows.len()
        invariant
            i <= rows@.len(),
            all == row_trees(rows@),
            all.len() == rows@.len(),
            texts_read(all, i as nat, out.deep_view()) == texts_read(all, 0, Seq::empty()),
        decreases rows@.len() - i,
    {
        let ghost before = out.deep_view();
        let row = DoltRow { columns: rows[i].as_slice() };
        assert(row@ == all[i as int]);
        let text = row.get::<String>(0)?;
        out.push(text);
        assert(out.deep_view() =~= before.push(text@));
        i = i + 1;
    }
    Ok(out)
}

/// Read the pairs in the first two columns of rows.
fn read_pairs(rows: &Vec<Vec<Value>>) -> (r: Result<Vec<(String, String)>, Failure>)
    ensures
        outcome(r) == pairs_read(row_trees(rows@), 0, Seq::empty()),
{
    let ghost all = row_trees(rows@);
    let mut out: Vec<(String, String)> = Vec::new();
    let mut i: usize = 0;
    assert(out.deep_view() =~= Seq::<(Text, Text)>::empty());
    assert(all.len() == rows@.len());
    while i < rows.len()
        invariant
            i <= rows@.len(),
            all == row_trees(rows@),
            all.len() == rows@.len(),
            pairs_read(all, i as nat, out.deep_view()) == pairs_read(all, 0, Seq::empty()),
        decreases rows@.len() - i,
    {
        let ghost before = out.deep_view();
        let row = DoltRow { columns: rows[i].as_slice() };
        assert(row@ == all[i as int]);
        let first = row.get::<String>(0)?;
        let second = row.get::<String>(1)?;
        let ghost pair = (first@, second@);
        out.push((first, second));
        assert(out.deep_view() =~= before.push(pair));
        i = i + 1;
    }
    Ok(out)
}

/// A query for texts.
pub open spec fn texts_query_run(w: World, c: DoltView, sql: Text, params: Seq<Text>) -> (
    World,
    Outcome<Seq<Text>>,
) {
    let (w, rows) = c.query(w, sql, params);
    match rows {
        Err(e) => (w, Err(e)),
        Ok(rows) => (w, texts_read(rows, 0, Seq::empty())),
    }
}

/// A query for pairs of texts.
pub open spec fn pairs_query_run(w: World, c: DoltView, sql: Text) -> (
    World,
    Outcome<Seq<(Text, Text)>>,
) {
    let (w, rows) = c.query(w, sql, Seq::empty());
    match rows {
        Err(e) => (w, Err(e)),
        Ok(rows) => (w, pairs_read(rows, 0, Seq::empty())),
    }
}

/// Query for pairs of texts.
fn query_pairs<B: Backend>(backend: &mut B, conn: &DoltConnection, sql: &str) -> (r: Result<
    Vec<(String, String)>,
    Failure,
>)
    ensures
        (final(backend).world(), outcome(r)) == pairs_query_run(
            old(backend).world(),
            conn@,
            sql@,
        ),
{
    let none: [&str; 0] = [];
    assert(none.deep_view() =~= Seq::<Text>::empty());
    let rows = conn.query_rows(backend, sql, &none)?;
    read_pairs(&rows)
}

// ─── Children ────────────────────────────────────────────────────────

/// Reading the children of a parent.
pub open spec fn children_run(w: World, env: EnvView, parent: Text) -> (World, Outcome<Seq<Text>>) {
    let (w, there) = exists_run(w, env);
    match there {
        Err(e) => (w, Err(e)),
        Ok(false) => (w, Ok(Seq::empty())),
        Ok(true) => {
            let (w, system) = system_run(w, env);
            match system {
                Err(e) => (w, Err(e)),
                Ok((scope, conn)) => texts_query_run(
                    w,
                    conn,
                    "SELECT child_uuid FROM parents WHERE parent_uuid = ?1"@,
                    seq![parent],
                ),
            }
        },
    }
}

/// Get all children of a parent from the system DB.
pub fn get_children<B: Backend>(backend: &mut B, env: &Env, parent_uuid: &str) -> (r: Result<
    Vec<String>,
    Failure,
>)
    ensures
        (final(backend).world(), outcome(r)) == children_run(
            old(backend).world(),
            env@,
            parent_uuid@,
        ),
{
    if !global_exists(backend, env)? {
        let none: Vec<String> = Vec::new();
        assert(none.deep_view() =~= Seq::<Text>::empty());
        return Ok(none);
    }
    let (_, conn) = open_system(backend, env)?;
    let rows = conn.query_rows(
        backend,
        "SELECT child_uuid FROM parents WHERE parent_uuid = ?1",
        &argv1(parent_uuid),
    )?;
    read_texts(&rows)
}

// ─── The tree ────────────────────────────────────────────────────────

/// Is one of the pairs for this name?
pub open spec fn is_named(pairs: Seq<(Text, Text)>, name: Text) -> bool {
    exists|i: int| 0 <= i < pairs.len() && (#[trigger] pairs[i]).0 == name
}

/// The pairs without those whose name came before.
pub open spec fn distinct(pairs: Seq<(Text, Text)>) -> Seq<(Text, Text)>
    decreases pairs.len(),
{
    if pairs.len() == 0 {
        Seq::empty()
    } else {
        let front = distinct(pairs.drop_last());
        if is_named(front, pairs.last().0) {
            front
        } else {
            front.push(pairs.last())
        }
    }
}

/// The parent that the links, each of a child and its parent, give a child; the
/// last one counts.
pub open spec fn linked_parent(links: Seq<(Text, Text)>, child: Text) -> Option<Text>
    decreases links.len(),
{
    if links.len() == 0 {
        None
    } else if links.last().0 == child {
        Some(links.last().1)
    } else {
        linked_parent(links.drop_last(), child)
    }
}

/// The managed children that the links give a parent, in their order.
pub open spec fn linked_children(
    links: Seq<(Text, Text)>,
    managed: Seq<(Text, Text)>,
    parent: Text,
) -> Seq<Text>
    decreases links.len(),
{
    if links.len() == 0 {
        Seq::empty()
    } else {
        let front = linked_children(links.drop_last(), managed, parent);
        if links.last().1 == parent && is_named(managed, links.last().0) {
            front.push(links.last().0)
        } else {
            front
        }
    }
}

/// Those of the subcontexts that have no parent among the managed ones.
pub open spec fn unparented(
    uuids: Seq<(Text, Text)>,
    managed: Seq<(Text, Text)>,
    links: Seq<(Text, Text)>,
) -> Seq<(Text, Text)>
    decreases uuids.len(),
{
    if uuids.len() == 0 {
        Seq::empty()
    } else {
        let front = unparented(uuids.drop_last(), managed, links);
        match linked_parent(links, uuids.last().0) {
            Some(parent) if is_named(managed, parent) => front,
            _ => front.push(uuids.last()),
        }
    }
}

/// The line of a subcontext in the tree.
pub open spec fn tree_line(prefix: Text, is_last: bool, uuid: Text, kind: Text) -> Text {
    prefix + (if is_last {
        "└── "@
    } else {
        "├── "@
    }) + (uuid + " ("@ + kind + ")\n"@)
}

/// What the lines of its children begin with.
pub open spec fn child_prefix(prefix: Text, is_last: bool) -> Text {
    prefix + (if is_last {
        "    "@
    } else {
        "│   "@
    })
}

/// A kind, or `unknown` where it could not be read.
pub open spec fn kind_or_unknown(kind: Outcome<Text>) -> Text {
    match kind {
        Ok(kind) => kind,
        Err(_) => "unknown"@,
    }
}

/// Is one of the pairs for this name?
fn names(pairs: &Vec<(String, String)>, name: &str) -> (r: bool)
    ensures
        r == is_named(pairs.deep_view(), name@),
{
    let ghost all = pairs.deep_view();
    let mut i: usize = 0;
    while i < pairs.len()
        invariant
            i <= pairs@.len(),
            all == pairs.deep_view(),
            forall|j: int| 0 <= j < i ==> (#[trigger] all[j]).0 != name@,
        decreases pairs@.len() - i,
    {
        assert(all[i as int].0 == pairs@[i as int].0@);
        if same(pairs[i].0.as_str(), name) {
            assert(is_named(all, name@));
            return true;
        }
        i = i + 1;
    }
    false
}

/// The pairs without those whose name came before.
fn without_repeats(pairs: &Vec<(String, String)>) -> (r: Vec<(String, String)>)
    ensures
        r.deep_view() == distinct(pairs.deep_view()),
{
    let ghost all = pairs.deep_view();
    let mut out: Vec<(String, String)> = Vec::new();
    let mut i: usize = 0;
    assert(out.deep_view() =~= distinct(all.take(0)));
    while i < pairs.len()
        invariant
            i <= pairs@.len(),
            all == pairs.deep_view(),
            out.deep_view() == distinct(all.take(i as int)),
        decreases pairs@.len() - i,
    {
        let ghost before = out.deep_view();
        proof {
            assert(all.take(i + 1).drop_last() =~= all.take(i as int));
            assert(all.take(i + 1).last() == pairs@[i as int].deep_view());
        }
        if !names(&out, pairs[i].0.as_str()) {
            out.push((pairs[i].0.clone(), pairs[i].1.clone()));
            assert(out.deep_view() =~= before.push(all[i as int]));
        }
        i = i + 1;
    }
    assert(all.take(pairs@.len() as int) =~= all);
    out
}

/// The parent that the links give a child.
fn parent_among(links: &Vec<(String, String)>, child: &str) -> (r: Option<String>)
    ensures
        r.deep_view() == linked_parent(links.deep_view(), child@),
{
    let ghost all = links.deep_view();
    let mut i: usize = links.len();
    assert(all.take(i as int) =~= all);
    while i > 0
        invariant
            i <= links@.len(),
            all == links.deep_view(),
            linked_parent(all, child@) == linked_parent(all.take(i as int), child@),
        decreases i,
    {
        proof {
            assert(all.take(i as int).drop_last() =~= all.take(i - 1));
            assert(all.take(i as int).last() == links@[i - 1].deep_view());
        }
        if same(links[i - 1].0.as_str(), child) {
            return Some(links[i - 1].1.clone());
        }
        i = i - 1;
    }
    None
}

/// The managed children that the links give a parent.
fn children_among(
    links: &Vec<(String, String)>,
    managed: &Vec<(String, String)>,
    parent: &str,
) -> (r: Vec<String>)
    ensures
        r.deep_view() == linked_children(links.deep_view(), managed.deep_view(), parent@),
{
    let ghost all = links.deep_view();
    let mut out: Vec<String> = Vec::new();
    let mut i: usize = 0;
    assert(out.deep_view() =~= linked_children(all.take(0), managed.deep_view(), parent@));
    while i < links.len()
        invariant
            i <= links@.len(),
            all == links.deep_view(),
            out.deep_view() == linked_children(
                all.take(i as int),
                managed.deep_view(),
                parent@,
            ),
        decreases links@.len() - i,
    {
        let ghost before = out.deep_view();
        proof {
            assert(all.take(i + 1).drop_last() =~= all.take(i as int));
            assert(all.take(i + 1).last() == links@[i as int].deep_view());
        }
        if same(links[i].1.as_str(), parent) && names(managed, links[i].0.as_str()) {
            out.push(links[i].0.clone());
            assert(out.deep_view() =~= before.push(links@[i as int].0@));
        }
        i = i + 1;
    }
    assert(all.take(links@.len() as int) =~= all);
    out
}

/// The managed subcontexts at the top of the tree.
fn top_among(managed: &Vec<(String, String)>, links: &Vec<(String, String)>) -> (r: Vec<
    (String, String),
>)
    ensures
        r.deep_view() == unparented(
            managed.deep_view(),
            managed.deep_view(),
            links.deep_view(),
        ),
{
    let ghost all = managed.deep_view();
    let mut out: Vec<(String, String)> = Vec::new();
    let mut i: usize = 0;
    assert(out.deep_view() =~= unparented(all.take(0), all, links.deep_view()));
    while i < managed.len()
        invariant
            i <= managed@.len(),
            all == managed.deep_view(),
            out.deep_view() == unparented(all.take(i as int), all, links.deep_view()),
        decreases managed@.len() - i,
    {
        let ghost before = out.deep_view();
        proof {
            assert(all.take(i + 1).drop_last() =~= all.take(i as int));
            assert(all.take(i + 1).last() == managed@[i as int].deep_view());
        }
        let is_top = match parent_among(links, managed[i].0.as_str()) {
            None => true,
            Some(parent) => !names(managed, parent.as_str()),
        };
        if is_top {
            out.push((managed[i].0.clone(), managed[i].1.clone()));
            assert(out.deep_view() =~= before.push(all[i as int]));
        }
        i = i + 1;
    }
    assert(all.take(managed@.len() as int) =~= all);
    out
}

/// What the tree is drawn from.
pub struct Family {
    /// The bare repo that has the object branches.
    pub repo: String,
    /// The managed subcontexts.
    pub managed: Vec<(String, String)>,
    /// The links, each of a child and its parent.
    pub links: Vec<(String, String)>,
}

/// The view of a family.
pub struct FamilyView {
    pub repo: Text,
    pub managed: Seq<(Text, Text)>,
    pub links: Seq<(Text, Text)>,
}

impl View for Family {
    type V = FamilyView;

    open spec fn view(&self) -> FamilyView {
        FamilyView {
            repo: self.repo@,
            managed: self.managed.deep_view(),
            links: self.links.deep_view(),
        }
    }
}

/// The failure where a subcontext is among its own ancestors.
pub open spec fn cycle_failure(uuid: Text) -> Seq<Text> {
    failed("subcontext "@ + uuid + " is among its own ancestors"@)
}

/// Drawing a subcontext and what is below it, at most `depth` levels deep.
pub open spec fn subtree_run(
    w: World,
    f: FamilyView,
    uuid: Text,
    prefix: Text,
    is_last: bool,
    depth: nat,
) -> (World, Outcome<Text>)
    decreases depth, 0int,
{
    if depth == 0 {
        (w, Err(cycle_failure(uuid)))
    } else {
        let (w, kind) = kind_run(w, f.repo, uuid, "unknown"@);
        siblings_run(
            w,
            f,
            linked_children(f.links, f.managed, uuid),
            0,
            child_prefix(prefix, is_last),
            (depth - 1) as nat,
            tree_line(prefix, is_last, uuid, kind_or_unknown(kind)),
        )
    }
}

/// Drawing the subcontexts from the `i`-th on, behind the text `drawn`.
pub open spec fn siblings_run(
    w: World,
    f: FamilyView,
    uuids: Seq<Text>,
    i: nat,
    prefix: Text,
    depth: nat,
    drawn: Text,
) -> (World, Outcome<Text>)
    decreases depth, 1 + uuids.len() - i,
{
    if i >= uuids.len() {
        (w, Ok(drawn))
    } else {
        let (w, one) = subtree_run(
            w,
            f,
            uuids[i as int],
            prefix,
            i == uuids.len() - 1,
            depth,
        );
        match one {
            Err(e) => (w, Err(e)),
            Ok(text) => siblings_run(w, f, uuids, i + 1, prefix, depth, drawn + text),
        }
    }
}

/// Draw a subcontext and what is below it.
fn draw_subtree<B: Backend>(
    backend: &mut B,
    family: &Family,
    uuid: &str,
    prefix: &str,
    is_last: bool,
    depth: usize,
) -> (r: Result<String, Failure>)
    ensures
        (final(backend).world(), outcome(r)) == subtree_run(
            old(backend).world(),
            family@,
            uuid@,
            prefix@,
            is_last,
            depth as nat,
        ),
    decreases depth, 0int,
{
    if depth == 0 {
        let message = cat3("subcontext ", uuid, " is among its own ancestors");
        return Err(fail(message.as_str()));
    }
    let kind = match managed_kind(backend, family.repo.as_str(), uuid, "unknown") {
        Ok(kind) => kind,
        Err(_) => "unknown".to_owned(),
    };
    let connector = if is_last {
        "└── "
    } else {
        "├── "
    };
    let label = crate::text::cat4(uuid, " (", kind.as_str(), ")\n");
    let line = cat3(prefix, connector, label.as_str());
    let below = if is_last {
        cat(prefix, "    ")
    } else {
        cat(prefix, "│   ")
    };
    let children = children_among(&family.links, &family.managed, uuid);
    draw_siblings(backend, family, &children, below.as_str(), depth - 1, line.as_str())
}

/// Draw subcontexts, behind the text `drawn`.
fn draw_siblings<B: Backend>(
    backend: &mut B,
    family: &Family,
    uuids: &Vec<String>,
    prefix: &str,
    depth: usize,
    drawn: &str,
) -> (r: Result<String, Failure>)
    ensures
        (final(backend).world(), outcome(r)) == siblings_run(
            old(backend).world(),
            family@,
            uuids.deep_view(),
            0,
            prefix@,
            depth as nat,
            drawn@,
        ),
    decreases depth, 1int,
{
    let ghost all = uuids.deep_view();
    let ghost w0 = backend.world();
    let mut out: String = drawn.to_owned();
    let mut i: usize = 0;
    while i < uuids.len()
        invariant
            i <= uuids@.len(),
            all == uuids.deep_view(),
            siblings_run(
                backend.world(),
                family@,
                all,
                i as nat,
                prefix@,
                depth as nat,
                out@,
            ) == siblings_run(w0, family@, all, 0, prefix@, depth as nat, drawn@),
            w0 == old(backend).world(),
        decreases uuids@.len() - i,
    {
        assert(all[i as int] == uuids@[i as int]@);
        let last = i == uuids.len() - 1;
        let text = draw_subtree(backend, family, uuids[i].as_str(), prefix, last, depth)?;
        out.append(text.as_str());
        i = i + 1;
    }
    Ok(out)
}

/// The names of pairs.
pub open spec fn names_of(pairs: Seq<(Text, Text)>) -> Seq<Text> {
    pairs.map_values(|p: (Text, Text)| p.0)
}

/// The names of pairs.
fn first_of_each(pairs: &Vec<(String, String)>) -> (r: Vec<String>)
    ensures
        r.deep_view() == names_of(pairs.deep_view()),
{
    let mut out: Vec<String> = Vec::new();
    let mut i: usize = 0;
    while i < pairs.len()
        invariant
            i <= pairs@.len(),
            out@.len() == i,
            forall|j: int| 0 <= j < i ==> (#[trigger] out@[j])@ == pairs@[j].0@,
        decreases pairs@.len() - i,
    {
        out.push(pairs[i].0.clone());
        i = i + 1;
    }
    assert(out.deep_view() =~= names_of(pairs.deep_view()));
    out
}

/// Drawing a family under the system subcontext: those at the top in the order of
/// their UUIDs. No chain of ancestors is longer than there are managed
/// subcontexts, unless one comes twice in it.
pub open spec fn family_run(w: World, f: FamilyView, system: Text) -> (World, Outcome<Text>) {
    siblings_run(
        w,
        f,
        names_of(sorted_pairs(unparented(f.managed, f.managed, f.links))),
        0,
        Seq::empty(),
        f.managed.len(),
        system + " (system)\n"@,
    )
}

/// Drawing the tree of all managed subcontexts.
pub open spec fn tree_run(w: World, env: EnvView) -> (World, Outcome<Text>) {
    let (w, there) = exists_run(w, env);
    match there {
        Err(e) => (w, Err(e)),
        Ok(false) => (w, Err(failed("no global (system) subcontext installed"@))),
        Ok(true) => {
            let (w, system) = system_run(w, env);
            match system {
                Err(e) => (w, Err(e)),
                Ok((scope, conn)) => {
                    let (w, managed) = pairs_query_run(
                        w,
                        conn,
                        "SELECT uuid, `type` FROM objects WHERE `type` = 'managed'"@,
                    );
                    match managed {
                        Err(e) => (w, Err(e)),
                        Ok(managed) => {
                            let (w, links) = pairs_query_run(
                                w,
                                conn,
                                "SELECT child_uuid, parent_uuid FROM parents"@,
                            );
                            match links {
                                Err(e) => (w, Err(e)),
                                Ok(links) => family_run(
                                    w,
                                    FamilyView {
                                        repo: repo_in(base_of(root_of(env)->Ok_0)),
                                        managed: distinct(managed),
                                        links,
                                    },
                                    scope.project_uuid,
                                ),
                            }
                        },
                    }
                },
            }
        },
    }
}

/// Build a tree string showing all managed subcontexts under the system subcontext.
pub fn tree_text<B: Backend>(backend: &mut B, env: &Env) -> (r: Result<String, Failure>)
    ensures
        (final(backend).world(), outcome(r)) == tree_run(old(backend).world(), env@),
{
    if !global_exists(backend, env)? {
        return Err(fail("no global (system) subcontext installed"));
    }
    let (scope, conn) = open_system(backend, env)?;

    // Collect all managed objects.
    let managed = query_pairs(
        backend,
        &conn,
        "SELECT uuid, `type` FROM objects WHERE `type` = 'managed'",
    )?;
    let managed = without_repeats(&managed);

    // The links from the parents table.
    let links = query_pairs(backend, &conn, "SELECT child_uuid, parent_uuid FROM parents")?;

    // Top-level = managed without a managed parent.
    let system = scope.project_uuid.as_str();
    let top = sort_pairs(top_among(&managed, &links));
    let uuids = first_of_each(&top);
    let depth: usize = managed.len();
    let head = cat(system, " (system)\n");
    let none = String::new();
    assert(none@ =~= Seq::<char>::empty());
    let repo = global_repo_dir(env)?;
    let family = Family { repo, managed, links };
    draw_siblings(backend, &family, &uuids, none.as_str(), depth, head.as_str())
}

// ─── Ancestry ────────────────────────────────────────────────────────

/// Walking up from `current`, behind the subcontexts in `chain`, where the walk
/// ends within `steps` steps: at the system subcontext, or behind one that has no
/// parent. It fails at one that it came by before.
pub open spec fn walk_within(
    w: World,
    repo: Text,
    c: DoltView,
    system: Text,
    current: Text,
    chain: Seq<(Text, Text)>,
    steps: nat,
) -> Option<(World, Outcome<Seq<(Text, Text)>>)>
    decreases steps,
{
    if steps == 0 {
        None
    } else if current == system {
        Some((w, Ok(chain)))
    } else if is_named(chain, current) {
        Some((w, Err(cycle_failure(current))))
    } else {
        let (w, kind) = kind_run(w, repo, current, "unknown"@);
        let now = chain.push((current, kind_or_unknown(kind)));
        let (w, parent) = text_query_run(w, c, parent_query(), seq![current]);
        match parent {
            Err(e) => Some((w, Err(e))),
            Ok(None) => Some((w, Ok(now))),
            Ok(Some(parent)) => walk_within(
                w,
                repo,
                c,
                system,
                parent,
                now,
                (steps - 1) as nat,
            ),
        }
    }
}

/// Reading the ancestry of a UUID, where the walk ends within `steps` steps.
pub open spec fn ancestry_within(w: World, env: EnvView, uuid: Text, steps: nat) -> Option<
    (World, Outcome<Seq<(Text, Text)>>),
> {
    let (w, there) = exists_run(w, env);
    match there {
        Err(e) => Some((w, Err(e))),
        Ok(false) => Some((w, Ok(Seq::empty()))),
        Ok(true) => {
            let (w, system) = system_run(w, env);
            match system {
                Err(e) => Some((w, Err(e))),
                Ok((scope, conn)) => walk_within(
                    w,
                    repo_in(base_of(root_of(env)->Ok_0)),
                    conn,
                    scope.project_uuid,
                    uuid,
                    Seq::empty(),
                    steps,
                ),
            }
        },
    }
}

/// Is the walk from `uuid`, `taken` steps on, the walk from `current`, with `more`
/// steps left?
spec fn walked_on(
    w0: World,
    repo: Text,
    c: DoltView,
    system: Text,
    uuid: Text,
    taken: nat,
    w: World,
    current: Text,
    chain: Seq<(Text, Text)>,
    more: nat,
) -> bool {
    walk_within(w0, repo, c, system, uuid, Seq::empty(), taken + more) == walk_within(
        w,
        repo,
        c,
        system,
        current,
        chain,
        more,
    )
}

/// Walk up from `uuid`.
fn walk_up<B: Backend>(
    backend: &mut B,
    conn: &DoltConnection,
    repo: &str,
    system: &str,
    uuid: &str,
) -> (r: Result<Vec<(String, String)>, Failure>)
    ensures
        exists|steps: nat|
            #[trigger] walk_within(
                old(backend).world(),
                repo@,
                conn@,
                system@,
                uuid@,
                Seq::empty(),
                steps,
            ) == Some((final(backend).world(), outcome(r))),
{
    let ghost w0 = backend.world();
    let ghost mut taken: nat = 0;
    let mut chain: Vec<(String, String)> = Vec::new();
    let mut current: String = uuid.to_owned();
    assert(chain.deep_view() =~= Seq::<(Text, Text)>::empty());
    loop
        invariant
            w0 == old(backend).world(),
            forall|more: nat|
                #[trigger] walked_on(
                    w0,
                    repo@,
                    conn@,
                    system@,
                    uuid@,
                    taken,
                    backend.world(),
                    current@,
                    chain.deep_view(),
                    more,
                ),
        decreases usize::MAX - chain@.len(),
    {
        let ghost now = backend.world();
        let ghost here = current@;
        let ghost before = chain.deep_view();
        proof {
            assert(walked_on(w0, repo@, conn@, system@, uuid@, taken, now, here, before, 1));
        }
        if same(current.as_str(), system) {
            return Ok(chain);
        }
        if names(&chain, current.as_str()) {
            let message = cat3("subcontext ", current.as_str(), " is among its own ancestors");
            return Err(fail(message.as_str()));
        }
        let kind = match managed_kind(backend, repo, current.as_str(), "unknown") {
            Ok(kind) => kind,
            Err(_) => "unknown".to_owned(),
        };
        let ghost pair = (current@, kind@);
        chain.push((current.clone(), kind));
        assert(chain.deep_view() =~= before.push(pair));
        let parent = query_text(
            backend,
            conn,
            "SELECT parent_uuid FROM parents WHERE child_uuid = ?1",
            &argv1(current.as_str()),
        )?;
        current = match parent {
            Some(parent) => parent,
            None => {
                return Ok(chain);
            },
        };
        proof {
            assert forall|more: nat|
                #[trigger] walked_on(
                    w0,
                    repo@,
                    conn@,
                    system@,
                    uuid@,
                    taken + 1,
                    backend.world(),
                    current@,
                    chain.deep_view(),
                    more,
                ) by {
                assert(walked_on(
                    w0,
                    repo@,
                    conn@,
                    system@,
                    uuid@,
                    taken,
                    now,
                    here,
                    before,
                    more + 1,
                ));
            }
            taken = taken + 1;
            assert(chain.len() <= usize::MAX);
        }
    }
}

/// Build the ancestry chain for a given UUID (walking up parents).
/// Returns vec of (uuid, kind) from the given UUID up to the root.
/// Does NOT include the system subcontext itself.
pub fn ancestry_chain<B: Backend>(backend: &mut B, env: &Env, uuid: &str) -> (r: Result<
    Vec<(String, String)>,
    Failure,
>)
    ensures
        exists|steps: nat|
            #[trigger] ancestry_within(old(backend).world(), env@, uuid@, steps) == Some(
                (final(backend).world(), outcome(r)),
            ),
{
    let ghost at_once = ancestry_within(old(backend).world(), env@, uuid@, 0);
    if !global_exists(backend, env)? {
        let none: Vec<(String, String)> = Vec::new();
        assert(none.deep_view() =~= Seq::<(Text, Text)>::empty());
        return Ok(none);
    }
    let (scope, conn) = open_system(backend, env)?;
    let repo = global_repo_dir(env)?;
    let ghost w1 = backend.world();
    let r = walk_up(backend, &conn, repo.as_str(), scope.project_uuid.as_str(), uuid);
    proof {
        let steps = choose|steps: nat|
            #[trigger] walk_within(
                w1,
                repo@,
                conn@,
                scope.project_uuid@,
                uuid@,
                Seq::empty(),
                steps,
            ) == Some((backend.world(), outcome(r)));
        assert(ancestry_within(old(backend).world(), env@, uuid@, steps) == Some(
            (backend.world(), outcome(r)),
        ));
    }
    r
}

// ─── Laws ────────────────────────────────────────────────────────────

/// The ancestry of a subcontext is one: where the walk ends, it ends the same
/// way however many steps it may take.
pub proof fn ancestry_is_one(
    w: World,
    repo: Text,
    c: DoltView,
    system: Text,
    current: Text,
    chain: Seq<(Text, Text)>,
    steps: nat,
    more: nat,
)
    requires
        walk_within(w, repo, c, system, current, chain, steps) is Some,
        steps <= more,
    ensures
        walk_within(w, repo, c, system, current, chain, more) == walk_within(
            w,
            repo,
            c,
            system,
            current,
            chain,
            steps,
        ),
    decreases steps,
{
    if current != system && !is_named(chain, current) {
        let (w1, kind) = kind_run(w, repo, current, "unknown"@);
        let now = chain.push((current, kind_or_unknown(kind)));
        let (w2, parent) = text_query_run(w1, c, parent_query(), seq![current]);
        match parent {
            Ok(Some(parent)) => {
                ancestry_is_one(
                    w2,
                    repo,
                    c,
                    system,
                    parent,
                    now,
                    (steps - 1) as nat,
                    (more - 1) as nat,
                );
            },
            _ => {},
        }
    }
}

/// The ancestry of a subcontext begins with the subcontext itself, unless that is
/// the system subcontext.
pub proof fn ancestry_begins_with_itself(
    w: World,
    repo: Text,
    c: DoltView,
    system: Text,
    uuid: Text,
    steps: nat,
)
    requires
        walk_within(w, repo, c, system, uuid, Seq::empty(), steps) is Some,
        (walk_within(w, repo, c, system, uuid, Seq::empty(), steps)->0).1 is Ok,
    ensures
        ({
            let chain = (walk_within(w, repo, c, system, uuid, Seq::empty(), steps)->0).1->Ok_0;
            if uuid == system {
                chain.len() == 0
            } else {
                chain.len() > 0 && chain[0].0 == uuid
            }
        }),
{
    if uuid != system {
        let (w1, kind) = kind_run(w, repo, uuid, "unknown"@);
        let first = Seq::<(Text, Text)>::empty().push((uuid, kind_or_unknown(kind)));
        let (w2, parent) = text_query_run(w1, c, parent_query(), seq![uuid]);
        match parent {
            Ok(Some(parent)) => {
                lemma_chain_is_kept(w2, repo, c, system, parent, first, (steps - 1) as nat);
            },
            _ => {},
        }
    }
}

proof fn lemma_chain_is_kept(
    w: World,
    repo: Text,
    c: DoltView,
    system: Text,
    current: Text,
    chain: Seq<(Text, Text)>,
    steps: nat,
)
    requires
        walk_within(w, repo, c, system, current, chain, steps) is Some,
        (walk_within(w, repo, c, system, current, chain, steps)->0).1 is Ok,
    ensures
        ({
            let all = (walk_within(w, repo, c, system, current, chain, steps)->0).1->Ok_0;
            &&& chain.len() <= all.len()
            &&& forall|i: int| 0 <= i < chain.len() ==> all[i] == chain[i]
        }),
    decreases steps,
{
    if current != system {
        let (w1, kind) = kind_run(w, repo, current, "unknown"@);
        let now = chain.push((current, kind_or_unknown(kind)));
        let (w2, parent) = text_query_run(w1, c, parent_query(), seq![current]);
        match parent {
            Ok(Some(parent)) => {
                lemma_chain_is_kept(w2, repo, c, system, parent, now, (steps - 1) as nat);
                let all = (walk_within(w, repo, c, system, current, chain, steps)->0).1->Ok_0;
                assert forall|i: int| 0 <= i < chain.len() implies all[i] == chain[i] by {
                    assert(all[i] == now[i]);
                }
            },
            _ => {},
        }
    }
}

/// The ancestry never holds the system subcontext.
pub proof fn ancestry_leaves_system_out(
    w: World,
    repo: Text,
    c: DoltView,
    system: Text,
    current: Text,
    chain: Seq<(Text, Text)>,
    steps: nat,
)
    requires
        walk_within(w, repo, c, system, current, chain, steps) is Some,
        (walk_within(w, repo, c, system, current, chain, steps)->0).1 is Ok,
        !is_named(chain, system),
    ensures
        !is_named((walk_within(w, repo, c, system, current, chain, steps)->0).1->Ok_0, system),
    decreases steps,
{
    if current != system && !is_named(chain, current) {
        let (w1, kind) = kind_run(w, repo, current, "unknown"@);
        let now = chain.push((current, kind_or_unknown(kind)));
        assert(!is_named(now, system)) by {
            if is_named(now, system) {
                let i = choose|i: int| 0 <= i < now.len() && (#[trigger] now[i]).0 == system;
                if i < chain.len() {
                    assert(chain[i].0 == system);
                }
            }
        }
        let (w2, parent) = text_query_run(w1, c, parent_query(), seq![current]);
        match parent {
            Ok(Some(parent)) => {
                ancestry_leaves_system_out(w2, repo, c, system, parent, now, (steps - 1) as nat);
            },
            _ => {},
        }
    }
}

/// Is each subcontext of the line but the first a managed child of the one
/// before it?
pub open spec fn is_line(f: FamilyView, line: Seq<Text>) -> bool {
    forall|i: int|
        0 <= i < line.len() - 1 ==> linked_children(
            f.links,
            f.managed,
            #[trigger] line[i],
        ).contains(line[i + 1])
}

proof fn lemma_line_longer(f: FamilyView, uuid: Text, line: Seq<Text>)
    requires
        is_line(f, line),
        line.len() > 0,
        linked_children(f.links, f.managed, uuid).contains(line[0]),
    ensures
        is_line(f, seq![uuid] + line),
{
    let all = seq![uuid] + line;
    assert forall|i: int| 0 <= i < all.len() - 1 implies linked_children(
        f.links,
        f.managed,
        #[trigger] all[i],
    ).contains(all[i + 1]) by {
        if i > 0 {
            assert(all[i] == line[i - 1]);
            assert(all[i + 1] == line[i]);
            assert(linked_children(f.links, f.managed, line[i - 1]).contains(line[i - 1 + 1]));
        }
    }
}

proof fn lemma_subtree_fails(
    w: World,
    f: FamilyView,
    uuid: Text,
    prefix: Text,
    is_last: bool,
    depth: nat,
) -> (line: Seq<Text>)
    requires
        subtree_run(w, f, uuid, prefix, is_last, depth).1 is Err,
    ensures
        line.len() == depth + 1,
        line[0] == uuid,
        is_line(f, line),
    decreases depth, 0int,
{
    if depth == 0 {
        seq![uuid]
    } else {
        let (w1, kind) = kind_run(w, f.repo, uuid, "unknown"@);
        let children = linked_children(f.links, f.managed, uuid);
        let line = lemma_siblings_fail(
            w1,
            f,
            children,
            0,
            child_prefix(prefix, is_last),
            (depth - 1) as nat,
            tree_line(prefix, is_last, uuid, kind_or_unknown(kind)),
        );
        lemma_line_longer(f, uuid, line);
        seq![uuid] + line
    }
}

proof fn lemma_siblings_fail(
    w: World,
    f: FamilyView,
    uuids: Seq<Text>,
    i: nat,
    prefix: Text,
    depth: nat,
    drawn: Text,
) -> (line: Seq<Text>)
    requires
        siblings_run(w, f, uuids, i, prefix, depth, drawn).1 is Err,
    ensures
        line.len() == depth + 1,
        uuids.contains(line[0]),
        is_line(f, line),
    decreases depth, 1 + uuids.len() - i,
{
    let (w1, one) = subtree_run(w, f, uuids[i as int], prefix, i == uuids.len() - 1, depth);
    match one {
        Err(e) => {
            let line = lemma_subtree_fails(
                w,
                f,
                uuids[i as int],
                prefix,
                i == uuids.len() - 1,
                depth,
            );
            assert(uuids[i as int] == line[0]);
            line
        },
        Ok(text) => lemma_siblings_fail(w1, f, uuids, i + 1, prefix, depth, drawn + text),
    }
}

proof fn lemma_children_are_managed(
    links: Seq<(Text, Text)>,
    managed: Seq<(Text, Text)>,
    parent: Text,
)
    ensures
        forall|child: Text|
            linked_children(links, managed, parent).contains(child) ==> is_named(managed, child),
    decreases links.len(),
{
    if links.len() > 0 {
        lemma_children_are_managed(links.drop_last(), managed, parent);
        let front = linked_children(links.drop_last(), managed, parent);
        let all = linked_children(links, managed, parent);
        assert forall|child: Text| all.contains(child) implies is_named(managed, child) by {
            let i = all.index_of(child);
            if i < front.len() {
                assert(front[i] == child);
                assert(front.contains(child));
            }
        }
    }
}

proof fn lemma_top_is_named(
    uuids: Seq<(Text, Text)>,
    managed: Seq<(Text, Text)>,
    links: Seq<(Text, Text)>,
    pair: (Text, Text),
)
    requires
        unparented(uuids, managed, links).contains(pair),
    ensures
        is_named(uuids, pair.0),
    decreases uuids.len(),
{
    let all = unparented(uuids, managed, links);
    let i = all.index_of(pair);
    let front = unparented(uuids.drop_last(), managed, links);
    if i < front.len() {
        assert(front[i] == pair);
        lemma_top_is_named(uuids.drop_last(), managed, links, pair);
        let rest = uuids.drop_last();
        let j = choose|j: int| 0 <= j < rest.len() && (#[trigger] rest[j]).0 == pair.0;
        assert(uuids[j].0 == pair.0);
    } else {
        assert(uuids[uuids.len() - 1].0 == pair.0);
    }
}

proof fn lemma_repeats(line: Seq<Text>, managed: Seq<(Text, Text)>)
    requires
        line.len() > managed.len(),
        forall|i: int| 0 <= i < line.len() ==> is_named(managed, #[trigger] line[i]),
    ensures
        exists|a: int, b: int| 0 <= a < b < line.len() && line[a] == line[b],
{
    broadcast use vstd::seq_lib::seq_to_set_is_finite;

    let names = names_of(managed);
    if line.no_duplicates() {
        line.unique_seq_to_set();
        names.lemma_cardinality_of_set();
        assert(line.to_set().subset_of(names.to_set())) by {
            assert forall|t: Text| line.to_set().contains(t) implies names.to_set().contains(
                t,
            ) by {
                let i = line.index_of(t);
                assert(line[i] == t);
                let j = choose|j: int| 0 <= j < managed.len() && (#[trigger] managed[j]).0 == t;
                assert(names[j] == t);
            }
        }
        vstd::set_lib::lemma_len_subset(line.to_set(), names.to_set());
    }
}

/// Drawing the tree fails only where a subcontext is among its own ancestors:
/// there is a line of descent in which one comes twice.
pub proof fn tree_fails_only_on_cycles(w: World, f: FamilyView, system: Text)
    requires
        family_run(w, f, system).1 is Err,
    ensures
        exists|line: Seq<Text>, a: int, b: int|
            #[trigger] is_line(f, line) && 0 <= a < b < line.len() && #[trigger] line[a]
                == #[trigger] line[b],
{
    let top = sorted_pairs(unparented(f.managed, f.managed, f.links));
    let uuids = names_of(top);
    let line = lemma_siblings_fail(
        w,
        f,
        uuids,
        0,
        Seq::empty(),
        f.managed.len(),
        system + " (system)\n"@,
    );
    assert forall|i: int| 0 <= i < line.len() implies is_named(f.managed, #[trigger] line[i]) by {
        if i == 0 {
            let at = uuids.index_of(line[0]);
            crate::order::sorting_sorts(unparented(f.managed, f.managed, f.links));
            broadcast use vstd::seq_lib::group_to_multiset_ensures;

            let pair = top[at];
            assert(top.contains(pair));
            assert(top.to_multiset().count(pair) > 0);
            assert(unparented(f.managed, f.managed, f.links).contains(pair));
            lemma_top_is_named(f.managed, f.managed, f.links, pair);
            assert(pair.0 == line[0]);
        } else {
            lemma_children_are_managed(f.links, f.managed, line[i - 1]);
            assert(linked_children(f.links, f.managed, line[i - 1]).contains(line[i - 1 + 1]));
        }
    }
    lemma_repeats(line, f.managed);
}

/// Is the subcontext drawn in a text, with what is below it?
spec fn is_drawn(f: FamilyView, text: Text, uuid: Text) -> bool {
    exists|w: World, prefix: Text, is_last: bool, depth: nat|
        draws(#[trigger] subtree_run(w, f, uuid, prefix, is_last, depth).1, text)
}

/// Has drawing come to an end, and is what was drawn in the text?
spec fn draws(drawn: Outcome<Text>, text: Text) -> bool {
    drawn matches Ok(part) && occurs(text, part)
}

proof fn lemma_occurs_deeper(whole: Text, part: Text, piece: Text)
    requires
        occurs(whole, part),
        occurs(part, piece),
    ensures
        occurs(whole, piece),
{
    let i = choose|i: int| #[trigger] stands_at(whole, part, i);
    let j = choose|j: int| #[trigger] stands_at(part, piece, j);
    assert(whole.subrange(i + j, i + j + piece.len()) =~= piece) by {
        assert forall|k: int| 0 <= k < piece.len() implies whole[i + j + k] == piece[k] by {
            assert(part.subrange(j, j + piece.len())[k] == piece[k]);
            assert(whole.subrange(i, i + part.len())[j + k] == part[j + k]);
        }
    }
    assert(stands_at(whole, piece, i + j));
}

proof fn lemma_drawn_deeper(f: FamilyView, whole: Text, part: Text, uuid: Text)
    requires
        occurs(whole, part),
        is_drawn(f, part, uuid),
    ensures
        is_drawn(f, whole, uuid),
{
    let (w, prefix, is_last, depth) = choose|w: World, prefix: Text, is_last: bool, depth: nat|
        draws(#[trigger] subtree_run(w, f, uuid, prefix, is_last, depth).1, part);
    let piece = subtree_run(w, f, uuid, prefix, is_last, depth).1->Ok_0;
    lemma_occurs_deeper(whole, part, piece);
    assert(draws(subtree_run(w, f, uuid, prefix, is_last, depth).1, whole));
}

proof fn lemma_siblings_draw(
    w: World,
    f: FamilyView,
    uuids: Seq<Text>,
    i: nat,
    prefix: Text,
    depth: nat,
    drawn: Text,
    k: int,
)
    requires
        siblings_run(w, f, uuids, i, prefix, depth, drawn).1 is Ok,
    ensures
        drawn.is_prefix_of(siblings_run(w, f, uuids, i, prefix, depth, drawn).1->Ok_0),
        i <= k < uuids.len() ==> is_drawn(
            f,
            siblings_run(w, f, uuids, i, prefix, depth, drawn).1->Ok_0,
            uuids[k],
        ),
    decreases uuids.len() - i,
{
    let text = siblings_run(w, f, uuids, i, prefix, depth, drawn).1->Ok_0;
    if i >= uuids.len() {
        assert(drawn.subrange(0, drawn.len() as int) =~= drawn);
    } else {
        let is_last = i == uuids.len() - 1;
        let (w1, one) = subtree_run(w, f, uuids[i as int], prefix, is_last, depth);
        let part = one->Ok_0;
        let now = drawn + part;
        lemma_siblings_draw(w1, f, uuids, i + 1, prefix, depth, now, k);
        assert forall|j: int| 0 <= j < now.len() implies text[j] == now[j] by {
            assert(text.subrange(0, now.len() as int)[j] == now[j]);
        }
        assert(text.subrange(0, drawn.len() as int) =~= drawn);
        if k == i {
            let at = drawn.len() as int;
            assert(text.subrange(at, at + part.len()) =~= part);
            assert(stands_at(text, part, at));
            assert(draws(subtree_run(w, f, uuids[k], prefix, is_last, depth).1, text));
        }
    }
}

/// What is below a subcontext is drawn with it, behind its own line.
proof fn lemma_subtree_draws(
    w: World,
    f: FamilyView,
    uuid: Text,
    prefix: Text,
    is_last: bool,
    depth: nat,
    child: Text,
)
    requires
        subtree_run(w, f, uuid, prefix, is_last, depth).1 is Ok,
    ensures
        ({
            let text = subtree_run(w, f, uuid, prefix, is_last, depth).1->Ok_0;
            let kind = kind_or_unknown(kind_run(w, f.repo, uuid, "unknown"@).1);
            &&& tree_line(prefix, is_last, uuid, kind).is_prefix_of(text)
            &&& linked_children(f.links, f.managed, uuid).contains(child) ==> is_drawn(
                f,
                text,
                child,
            )
        }),
{
    let (w1, kind) = kind_run(w, f.repo, uuid, "unknown"@);
    let children = linked_children(f.links, f.managed, uuid);
    lemma_siblings_draw(
        w1,
        f,
        children,
        0,
        child_prefix(prefix, is_last),
        (depth - 1) as nat,
        tree_line(prefix, is_last, uuid, kind_or_unknown(kind)),
        children.index_of(child),
    );
}

proof fn lemma_linked_child(
    links: Seq<(Text, Text)>,
    managed: Seq<(Text, Text)>,
    child: Text,
    parent: Text,
)
    requires
        linked_parent(links, child) == Some(parent),
        is_named(managed, child),
    ensures
        linked_children(links, managed, parent).contains(child),
    decreases links.len(),
{
    let all = linked_children(links, managed, parent);
    let front = linked_children(links.drop_last(), managed, parent);
    if links.last().0 == child {
        assert(all[front.len() as int] == child);
    } else {
        lemma_linked_child(links.drop_last(), managed, child, parent);
        let i = front.index_of(child);
        assert(all[i] == child);
    }
}

proof fn lemma_top_is_listed(
    uuids: Seq<(Text, Text)>,
    managed: Seq<(Text, Text)>,
    links: Seq<(Text, Text)>,
    uuid: Text,
) -> (pair: (Text, Text))
    requires
        is_named(uuids, uuid),
        linked_parent(links, uuid) matches Some(parent) ==> !is_named(managed, parent),
    ensures
        pair.0 == uuid,
        unparented(uuids, managed, links).contains(pair),
    decreases uuids.len(),
{
    let all = unparented(uuids, managed, links);
    let front = unparented(uuids.drop_last(), managed, links);
    if uuids.last().0 == uuid {
        assert(all[front.len() as int] == uuids.last());
        uuids.last()
    } else {
        let j = choose|j: int| 0 <= j < uuids.len() && (#[trigger] uuids[j]).0 == uuid;
        assert(uuids.drop_last()[j].0 == uuid);
        let pair = lemma_top_is_listed(uuids.drop_last(), managed, links, uuid);
        let i = front.index_of(pair);
        assert(all[i] == pair);
        pair
    }
}

/// Does the way up from a subcontext, over managed parents, end within so many
/// steps?
pub open spec fn climb_ends(f: FamilyView, uuid: Text, steps: nat) -> bool
    decreases steps,
{
    steps > 0 && match linked_parent(f.links, uuid) {
        Some(parent) if is_named(f.managed, parent) => climb_ends(f, parent, (steps - 1) as nat),
        _ => true,
    }
}

proof fn lemma_is_drawn(w: World, f: FamilyView, system: Text, uuid: Text, steps: nat)
    requires
        family_run(w, f, system).1 is Ok,
        is_named(f.managed, uuid),
        climb_ends(f, uuid, steps),
    ensures
        is_drawn(f, family_run(w, f, system).1->Ok_0, uuid),
    decreases steps,
{
    let text = family_run(w, f, system).1->Ok_0;
    let parent = linked_parent(f.links, uuid);
    if parent is Some && is_named(f.managed, parent->0) {
        let up = parent->0;
        lemma_is_drawn(w, f, system, up, (steps - 1) as nat);
        let (w1, prefix, is_last, depth) = choose|
            w1: World,
            prefix: Text,
            is_last: bool,
            depth: nat,
        | draws(#[trigger] subtree_run(w1, f, up, prefix, is_last, depth).1, text);
        let part = subtree_run(w1, f, up, prefix, is_last, depth).1->Ok_0;
        lemma_linked_child(f.links, f.managed, uuid, up);
        lemma_subtree_draws(w1, f, up, prefix, is_last, depth, uuid);
        lemma_drawn_deeper(f, text, part, uuid);
    } else {
        broadcast use vstd::seq_lib::group_to_multiset_ensures;

        let tops = unparented(f.managed, f.managed, f.links);
        let pair = lemma_top_is_listed(f.managed, f.managed, f.links, uuid);
        crate::order::sorting_sorts(tops);
        let sorted = sorted_pairs(tops);
        assert(tops.to_multiset().count(pair) > 0);
        assert(sorted.contains(pair));
        let k = sorted.index_of(pair);
        let uuids = names_of(sorted);
        assert(uuids[k] == uuid);
        lemma_siblings_draw(
            w,
            f,
            uuids,
            0,
            Seq::empty(),
            f.managed.len(),
            system + " (system)\n"@,
            k,
        );
    }
}

/// The tree shows all managed subcontexts: each one whose way up over its parents
/// ends has a line in it.
pub proof fn tree_shows_every_subcontext(
    w: World,
    f: FamilyView,
    system: Text,
    uuid: Text,
    steps: nat,
)
    requires
        family_run(w, f, system).1 is Ok,
        is_named(f.managed, uuid),
        climb_ends(f, uuid, steps),
    ensures
        exists|prefix: Text, is_last: bool, kind: Text|
            occurs(
                family_run(w, f, system).1->Ok_0,
                #[trigger] tree_line(prefix, is_last, uuid, kind),
            ),
{
    let text = family_run(w, f, system).1->Ok_0;
    lemma_is_drawn(w, f, system, uuid, steps);
    let (w1, prefix, is_last, depth) = choose|
        w1: World,
        prefix: Text,
        is_last: bool,
        depth: nat,
    | draws(#[trigger] subtree_run(w1, f, uuid, prefix, is_last, depth).1, text);
    let part = subtree_run(w1, f, uuid, prefix, is_last, depth).1->Ok_0;
    let kind = kind_or_unknown(kind_run(w1, f.repo, uuid, "unknown"@).1);
    let line = tree_line(prefix, is_last, uuid, kind);
    lemma_subtree_draws(w1, f, uuid, prefix, is_last, depth, uuid);
    assert(part.subrange(0, 0 + line.len() as int) =~= line);
    assert(stands_at(part, line, 0));
    lemma_occurs_deeper(text, part, line);
}

} // verus!
