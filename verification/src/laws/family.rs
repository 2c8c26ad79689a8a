//! What is told of the subcontexts on a machine and of their names.

use vstd::prelude::*;

use crate::dolt::{column, rows_read, substituted, DoltView};
use crate::environment::EnvView;
use crate::global::{exists_run, kind_run, root_of, system_run, text_query_run};
use crate::json::{document_text, json_parsed, lookup, Entries, JsonView};
use crate::laws::global::group_kept_global;
use crate::laws::system::{answered, lemma_query, lemma_system, query_call};
use crate::lineage::{
    ancestry_within, children_run, distinct, family_run, is_named, kind_or_unknown, linked_children,
    pairs_query_run, pairs_read, texts_read, tree_run, walk_within, FamilyView,
};
use crate::namespace::{collected, flattened, full_key, read_run, resolved, write_run};
use crate::order::{sorted_pairs, sorting_sorts};
use crate::paths::path_join;
use crate::text::Text;
use crate::trace::{did, group_did, lemma_did_before, Step};
use crate::world::{Call, World};

verus! {

broadcast use group_did;

// ─── Children ────────────────────────────────────────────────────────

/// Is each text the first column of its row, row by row?
pub open spec fn column_of(rows: Seq<Seq<JsonView>>, texts: Seq<Text>) -> bool {
    texts.len() == rows.len() && forall|i: int|
        0 <= i < rows.len() ==> column::<String>(#[trigger] rows[i], 0) == Ok::<Text, Seq<Text>>(
            texts[i],
        )
}

proof fn lemma_texts_read(rows: Seq<Seq<JsonView>>, i: nat, found: Seq<Text>)
    requires
        i <= rows.len(),
        column_of(rows.take(i as int), found),
    ensures
        texts_read(rows, i, found) matches Ok(texts) ==> column_of(rows, texts),
    decreases rows.len() - i,
{
    if i < rows.len() {
        let told = column::<String>(rows[i as int], 0);
        if told is Ok {
            let more = found.push(told->Ok_0);
            assert forall|k: int| 0 <= k < rows.take(i as int + 1).len() implies column::<String>(
                #[trigger] rows.take(i as int + 1)[k],
                0,
            ) == Ok::<Text, Seq<Text>>(more[k]) by {
                if k < i {
                    assert(rows.take(i as int + 1)[k] == rows.take(i as int)[k]);
                }
            }
            lemma_texts_read(rows, i + 1, more);
        }
    } else {
        assert(rows.take(i as int) =~= rows);
    }
}

/// The children of a subcontext are those that the system's database tells, all
/// of them and in its order; there are none where there is no system subcontext.
pub proof fn children_are_what_the_database_tells(w: World, env: EnvView, parent: Text)
    requires
        children_run(w, env, parent).1 is Ok,
    ensures
        ({
            let (after, children) = children_run(w, env, parent);
            let root = root_of(env)->Ok_0;
            let sql = substituted(
                "SELECT child_uuid FROM parents WHERE parent_uuid = ?1"@,
                seq![parent],
            );
            &&& root_of(env) is Ok
            &&& (children->Ok_0.len() == 0 && did(
                w,
                after,
                seq![Step::No(Call::Exists(path_join(path_join(root, "global"@), "repo"@)))],
            )) || exists|bin: Text, output: Text| #[trigger]
                did(
                    w,
                    after,
                    seq![
                        Step::Printed(
                            query_call(bin, path_join(path_join(root, "global"@), "dolt"@), sql),
                            output,
                        ),
                    ],
                ) && rows_read(output) is Ok && column_of(
                    rows_read(output)->Ok_0,
                    children->Ok_0,
                )
        }),
{
    let (after, children) = children_run(w, env, parent);
    let root = root_of(env)->Ok_0;
    let (w1, there) = exists_run(w, env);
    if there->Ok_0 {
        lemma_system(w, w1, env);
        let (w2, system) = system_run(w1, env);
        let (scope, conn) = system->Ok_0;
        let sql = substituted(
            "SELECT child_uuid FROM parents WHERE parent_uuid = ?1"@,
            seq![parent],
        );
        let (w3, ran) = w2.capture(
            conn.bin,
            seq!["sql"@, "-r"@, "json"@, "-q"@, sql],
            Some(conn.repo),
        );
        let output = ran->Ok_0.stdout;
        assert(did(
            w,
            after,
            seq![
                Step::Printed(
                    query_call(conn.bin, path_join(path_join(root, "global"@), "dolt"@), sql),
                    output,
                ),
            ],
        ));
        let rows = rows_read(output)->Ok_0;
        assert(rows.take(0) =~= Seq::<Seq<JsonView>>::empty());
        assert(column_of(rows.take(0), Seq::empty()));
        lemma_texts_read(rows, 0, Seq::empty());
    }
}

// ─── Ancestry ────────────────────────────────────────────────────────

/// Did the database tell this parent of the child?
pub open spec fn parent_told(
    w0: World,
    w: World,
    c: DoltView,
    child: Text,
    parent: Option<Text>,
) -> bool {
    exists|output: Text| #[trigger]
        answered(
            w0,
            w,
            c.repo,
            substituted("SELECT parent_uuid FROM parents WHERE child_uuid = ?1"@, seq![child]),
            c.bin,
            output,
            parent,
        )
}

/// Is each in the chain the child of the next, as the database told?
pub open spec fn is_chain(w0: World, w: World, c: DoltView, chain: Seq<(Text, Text)>) -> bool {
    forall|i: int|
        0 <= i < chain.len() - 1 ==> parent_told(
            w0,
            w,
            c,
            (#[trigger] chain[i]).0,
            Some(chain[i + 1].0),
        )
}

proof fn lemma_still_answered(
    w0: World,
    w: World,
    after: World,
    c: DoltView,
    child: Text,
    parent: Option<Text>,
)
    requires
        parent_told(w0, w, c, child, parent),
        did(w, after, Seq::empty()),
    ensures
        parent_told(w0, after, c, child, parent),
{
    let sql = substituted("SELECT parent_uuid FROM parents WHERE child_uuid = ?1"@, seq![child]);
    let output = choose|output: Text| #[trigger]
        answered(w0, w, c.repo, sql, c.bin, output, parent);
    lemma_did_before(
        w0,
        w,
        after,
        seq![Step::Printed(query_call(c.bin, c.repo, sql), output)],
    );
    assert(answered(w0, after, c.repo, sql, c.bin, output, parent));
}

proof fn lemma_walk(
    w0: World,
    w: World,
    repo: Text,
    c: DoltView,
    system: Text,
    current: Text,
    chain: Seq<(Text, Text)>,
    steps: nat,
)
    requires
        did(w0, w, Seq::empty()),
        is_chain(w0, w, c, chain),
        chain.len() > 0 ==> parent_told(w0, w, c, chain.last().0, Some(current)),
    ensures
        walk_within(w, repo, c, system, current, chain, steps) matches Some(end)
            ==> end.1 matches Ok(all) ==> {
            &&& is_chain(w0, end.0, c, all)
            &&& all.len() > 0 ==> parent_told(w0, end.0, c, all.last().0, None) || parent_told(
                w0,
                end.0,
                c,
                all.last().0,
                Some(system),
            )
        },
    decreases steps,
{
    broadcast use group_kept_global;

    if steps > 0 && current != system && !is_named(chain, current) {
        let (w1, kind) = kind_run(w, repo, current, "unknown"@);
        let now = chain.push((current, kind_or_unknown(kind)));
        assert(did(w, w, Seq::empty()));
        assert(did(w, w1, Seq::empty()));
        assert(did(w0, w1, Seq::empty()));
        let query = crate::global::parent_query();
        let (w2, parent) = text_query_run(w1, c, query, seq![current]);
        assert(did(w, w2, Seq::empty()));
        assert(did(w0, w2, Seq::empty()));
        if parent is Ok {
            lemma_query(w0, w1, c, query, seq![current]);
            assert(parent_told(w0, w2, c, current, parent->Ok_0));
            assert forall|i: int| 0 <= i < now.len() - 1 implies parent_told(
                w0,
                w2,
                c,
                (#[trigger] now[i]).0,
                Some(now[i + 1].0),
            ) by {
                assert(now[i] == chain[i]);
                if i < chain.len() - 1 {
                    assert(now[i + 1] == chain[i + 1]);
                    lemma_still_answered(w0, w, w2, c, chain[i].0, Some(chain[i + 1].0));
                } else {
                    lemma_still_answered(w0, w, w2, c, chain[i].0, Some(current));
                }
            }
            if parent->Ok_0 is Some {
                lemma_walk(
                    w0,
                    w2,
                    repo,
                    c,
                    system,
                    parent->Ok_0->0,
                    now,
                    (steps - 1) as nat,
                );
            }
        }
    }
}

/// The ancestry of a subcontext goes up from parent to parent, as the database
/// tells them, until there is none or the parent is the system.
pub proof fn ancestry_goes_from_parent_to_parent(
    w: World,
    repo: Text,
    c: DoltView,
    system: Text,
    uuid: Text,
    steps: nat,
)
    requires
        walk_within(w, repo, c, system, uuid, Seq::empty(), steps) is Some,
        (walk_within(w, repo, c, system, uuid, Seq::empty(), steps)->0).1 is Ok,
    ensures
        ({
            let (after, all) = walk_within(w, repo, c, system, uuid, Seq::empty(), steps)->0;
            let chain = all->Ok_0;
            &&& is_chain(w, after, c, chain)
            &&& chain.len() > 0 ==> parent_told(w, after, c, chain.last().0, None) || parent_told(
                w,
                after,
                c,
                chain.last().0,
                Some(system),
            )
        }),
{
    lemma_walk(w, w, repo, c, system, uuid, Seq::empty(), steps);
}

/// The ancestry that is told is walked from the subcontext itself, in the
/// database and the repo of the system subcontext, up to the system; there is
/// none where there is no system subcontext.
pub proof fn ancestry_is_walked_in_the_system(w: World, env: EnvView, uuid: Text, steps: nat)
    requires
        ancestry_within(w, env, uuid, steps) is Some,
        (ancestry_within(w, env, uuid, steps)->0).1 is Ok,
    ensures
        ({
            let (after, all) = ancestry_within(w, env, uuid, steps)->0;
            let base = path_join(root_of(env)->Ok_0, "global"@);
            &&& root_of(env) is Ok
            &&& (all->Ok_0.len() == 0 && did(
                w,
                after,
                seq![Step::No(Call::Exists(path_join(base, "repo"@)))],
            )) || exists|bin: Text, system: Text, from: World| #[trigger]
                walk_within(
                    from,
                    path_join(base, "repo"@),
                    (DoltView { repo: path_join(base, "dolt"@), bin }),
                    system,
                    uuid,
                    Seq::empty(),
                    steps,
                ) == Some((after, all)) && did(w, from, Seq::empty())
        }),
{
    let (after, all) = ancestry_within(w, env, uuid, steps)->0;
    let base = path_join(root_of(env)->Ok_0, "global"@);
    let (w1, there) = exists_run(w, env);
    if there->Ok_0 {
        lemma_system(w, w1, env);
        let (w2, found) = system_run(w1, env);
        let (scope, conn) = found->Ok_0;
        assert(conn == DoltView { repo: path_join(base, "dolt"@), bin: conn.bin });
        assert(walk_within(
            w2,
            path_join(base, "repo"@),
            (DoltView { repo: path_join(base, "dolt"@), bin: conn.bin }),
            scope.project_uuid,
            uuid,
            Seq::empty(),
            steps,
        ) == Some((after, all)));
    }
}

// ─── Namespaces ──────────────────────────────────────────────────────

/// The names of a directory are those in its `namespaces.json`, and none where it
/// has none. Reading fails only where the file cannot be read or is no record.
pub proof fn names_are_read_from_their_file(w: World, dir: Text)
    ensures
        ({
            let (after, names) = read_run(w, dir);
            let path = path_join(dir, "namespaces.json"@);
            match names {
                Ok(entries) => (entries == Seq::<(Text, JsonView)>::empty() && did(
                    w,
                    after,
                    seq![Step::No(Call::Exists(path))],
                )) || exists|content: Text| #[trigger]
                    did(w, after, seq![Step::Told(Call::Read(path), content)]) && json_parsed(
                        content,
                    ) == Ok::<JsonView, Text>(JsonView::Record(entries)),
                Err(_) => did(w, after, seq![Step::Refused]) || exists|content: Text| #[trigger]
                    did(w, after, seq![Step::Told(Call::Read(path), content)]) && !(json_parsed(
                        content,
                    ) is Ok && json_parsed(content)->Ok_0 is Record),
            }
        }),
{
    let path = path_join(dir, "namespaces.json"@);
    let (w1, there) = w.path_exists(path);
    let (w2, content) = w1.read(path);
    let (after, names) = read_run(w, dir);
    if !there {
        assert(after == w1);
        assert(did(w, after, seq![Step::No(Call::Exists(path))]));
    } else if content is Ok {
        let content = content->Ok_0;
        assert(after == w2);
        assert(did(w, after, seq![Step::Told(Call::Read(path), content)]));
        if names is Ok {
            assert(json_parsed(content) is Ok && json_parsed(content)->Ok_0 is Record);
        } else {
            assert(!(json_parsed(content) is Ok && json_parsed(content)->Ok_0 is Record));
        }
    }
}

/// Writing names writes all of them to `namespaces.json` of the directory.
pub proof fn names_are_written_to_their_file(w: World, dir: Text, entries: Entries)
    ensures
        ({
            let (after, done) = write_run(w, dir, entries);
            let path = path_join(dir, "namespaces.json"@);
            match done {
                Ok(_) => did(
                    w,
                    after,
                    seq![Step::Wrote(path, document_text(JsonView::Record(entries)))],
                ),
                Err(_) => did(w, after, seq![Step::Refused]),
            }
        }),
{
}

/// Are the names all not empty?
pub open spec fn all_named(path: Seq<Text>) -> bool {
    forall|i: int| 0 <= i < path.len() ==> (#[trigger] path[i]).len() > 0
}

/// The names of a path below a prefix, with slashes between them.
pub open spec fn slashed(prefix: Text, path: Seq<Text>) -> Text
    decreases path.len(),
{
    if path.len() == 0 {
        prefix
    } else {
        slashed(
            if prefix.len() == 0 {
                path[0]
            } else {
                prefix + "/"@ + path[0]
            },
            path.skip(1),
        )
    }
}

proof fn lemma_sorted_contains(pairs: Seq<(Text, Text)>, pair: (Text, Text))
    requires
        pairs.contains(pair),
    ensures
        sorted_pairs(pairs).contains(pair),
{
    broadcast use vstd::seq_lib::group_to_multiset_ensures;

    sorting_sorts(pairs);
    assert(pairs.to_multiset().contains(pair));
    assert(sorted_pairs(pairs).to_multiset().contains(pair));
}

proof fn lemma_collected(entries: Entries, prefix: Text, at: int, pair: (Text, Text))
    requires
        0 <= at < entries.len(),
        match entries[at].1 {
            JsonView::Text(uuid) => pair == (full_key(prefix, entries[at].0), uuid),
            JsonView::Record(inner) => flattened(
                inner,
                full_key(prefix, entries[at].0),
            ).contains(pair),
            _ => false,
        },
    ensures
        collected(entries, prefix).contains(pair),
    decreases entries.len(),
{
    let front = entries.drop_last();
    let all = collected(entries, prefix);
    let before = collected(front, prefix);
    if at < front.len() {
        assert(front[at] == entries[at]);
        lemma_collected(front, prefix, at, pair);
        let k = choose|k: int| 0 <= k < before.len() && before[k] == pair;
        assert(all[k] == pair);
    } else {
        match entries[at].1 {
            JsonView::Text(uuid) => {
                assert(all[all.len() - 1] == pair);
            },
            JsonView::Record(inner) => {
                let more = flattened(inner, full_key(prefix, entries[at].0));
                let k = choose|k: int| 0 <= k < more.len() && more[k] == pair;
                assert(all[before.len() + k] == pair);
            },
            _ => {},
        }
    }
}

proof fn lemma_listed_name(entries: Entries, prefix: Text, path: Seq<Text>, uuid: Text)
    requires
        path.len() > 0,
        all_named(path),
        resolved(entries, path) == Ok::<(Text, Seq<Text>), Seq<Text>>((uuid, Seq::empty())),
    ensures
        flattened(entries, prefix).contains((slashed(prefix, path), uuid)),
    decreases path.len(),
{
    let key = path[0];
    let at = crate::json::key_position(entries, key);
    lemma_key_position(entries, key);
    let name = full_key(prefix, key);
    let pair = (slashed(prefix, path), uuid);
    match lookup(entries, key) {
        Some(JsonView::Text(found)) => {
            assert(path.skip(1) =~= Seq::<Text>::empty());
            assert(slashed(name, path.skip(1)) == name);
            lemma_collected(entries, prefix, at, pair);
        },
        Some(JsonView::Record(inner)) => {
            assert forall|i: int| 0 <= i < path.skip(1).len() implies (
            #[trigger] path.skip(1)[i]).len() > 0 by {
                assert(path[i + 1].len() > 0);
            }
            lemma_listed_name(inner, name, path.skip(1), uuid);
            lemma_collected(entries, prefix, at, pair);
        },
        _ => {},
    }
    lemma_sorted_contains(collected(entries, prefix), pair);
}

proof fn lemma_key_position(entries: Entries, key: Text)
    ensures
        0 <= crate::json::key_position(entries, key) <= entries.len(),
        crate::json::key_position(entries, key) < entries.len() ==> entries[crate::json::key_position(
            entries,
            key,
        )].0 == key,
    decreases entries.len(),
{
    if entries.len() > 0 && entries[0].0 != key {
        lemma_key_position(entries.skip(1), key);
    }
}

/// Every name that leads to a UUID is listed with that UUID, the parts of a
/// nested name with slashes between them.
pub proof fn every_name_is_listed(entries: Entries, path: Seq<Text>, uuid: Text)
    requires
        path.len() > 0,
        all_named(path),
        resolved(entries, path) == Ok::<(Text, Seq<Text>), Seq<Text>>((uuid, Seq::empty())),
    ensures
        flattened(entries, Seq::empty()).contains((slashed(Seq::empty(), path), uuid)),
{
    lemma_listed_name(entries, Seq::empty(), path, uuid);
}

// ─── The tree ────────────────────────────────────────────────────────

/// Is there a link from the child to the parent?
pub open spec fn is_link(links: Seq<(Text, Text)>, child: Text, parent: Text) -> bool {
    exists|i: int| 0 <= i < links.len() && #[trigger] links[i] == (child, parent)
}

/// Below a subcontext the tree shows just the managed ones that are linked to it
/// as its children.
pub proof fn linked_children_are_the_managed_ones(
    links: Seq<(Text, Text)>,
    managed: Seq<(Text, Text)>,
    parent: Text,
    child: Text,
)
    ensures
        linked_children(links, managed, parent).contains(child) <==> is_named(managed, child)
            && is_link(links, child, parent),
    decreases links.len(),
{
    if links.len() > 0 {
        let front = links.drop_last();
        let last = links.last();
        linked_children_are_the_managed_ones(front, managed, parent, child);
        let before = linked_children(front, managed, parent);
        let all = linked_children(links, managed, parent);
        if is_link(links, child, parent) && !is_link(front, child, parent) {
            let i = choose|i: int| 0 <= i < links.len() && #[trigger] links[i] == (child, parent);
            if i < front.len() {
                assert(front[i] == (child, parent));
            }
        }
        if is_link(front, child, parent) {
            let i = choose|i: int| 0 <= i < front.len() && #[trigger] front[i] == (child, parent);
            assert(links[i] == (child, parent));
        }
        if last.1 == parent && is_named(managed, last.0) {
            assert(links[links.len() - 1] == (last.0, parent));
            assert(all == before.push(last.0));
            if all.contains(child) {
                let k = choose|k: int| 0 <= k < all.len() && all[k] == child;
                if k < before.len() {
                    assert(before[k] == child);
                }
            }
            if before.contains(child) {
                let k = choose|k: int| 0 <= k < before.len() && before[k] == child;
                assert(all[k] == child);
            }
            if child == last.0 {
                assert(all[all.len() - 1] == child);
            }
        }
    }
}

/// Are these the first two columns of each row, row by row?
pub open spec fn columns_of(rows: Seq<Seq<JsonView>>, pairs: Seq<(Text, Text)>) -> bool {
    pairs.len() == rows.len() && forall|i: int|
        0 <= i < rows.len() ==> column::<String>(#[trigger] rows[i], 0) == Ok::<Text, Seq<Text>>(
            pairs[i].0,
        ) && column::<String>(rows[i], 1) == Ok::<Text, Seq<Text>>(pairs[i].1)
}

proof fn lemma_pairs_read(rows: Seq<Seq<JsonView>>, i: nat, found: Seq<(Text, Text)>)
    requires
        i <= rows.len(),
        columns_of(rows.take(i as int), found),
    ensures
        pairs_read(rows, i, found) matches Ok(pairs) ==> columns_of(rows, pairs),
    decreases rows.len() - i,
{
    if i < rows.len() {
        let first = column::<String>(rows[i as int], 0);
        let second = column::<String>(rows[i as int], 1);
        if first is Ok && second is Ok {
            let more = found.push((first->Ok_0, second->Ok_0));
            assert forall|k: int| 0 <= k < rows.take(i as int + 1).len() implies column::<String>(
                #[trigger] rows.take(i as int + 1)[k],
                0,
            ) == Ok::<Text, Seq<Text>>(more[k].0) && column::<String>(
                rows.take(i as int + 1)[k],
                1,
            ) == Ok::<Text, Seq<Text>>(more[k].1) by {
                if k < i {
                    assert(rows.take(i as int + 1)[k] == rows.take(i as int)[k]);
                }
            }
            lemma_pairs_read(rows, i + 1, more);
        }
    } else {
        assert(rows.take(i as int) =~= rows);
    }
}

/// Did the database answer the query with these pairs?
pub open spec fn pairs_told(
    w0: World,
    w: World,
    dolt: Text,
    bin: Text,
    sql: Text,
    output: Text,
    pairs: Seq<(Text, Text)>,
) -> bool {
    did(w0, w, seq![Step::Printed(query_call(bin, dolt, sql), output)]) && rows_read(output) is Ok
        && columns_of(rows_read(output)->Ok_0, pairs)
}

proof fn lemma_pairs_query(w0: World, w: World, c: DoltView, sql: Text)
    requires
        did(w0, w, Seq::empty()),
        pairs_query_run(w, c, sql).1 is Ok,
    ensures
        ({
            let (after, pairs) = pairs_query_run(w, c, sql);
            did(w0, after, Seq::empty()) && exists|output: Text| #[trigger]
                pairs_told(
                    w0,
                    after,
                    c.repo,
                    c.bin,
                    substituted(sql, Seq::empty()),
                    output,
                    pairs->Ok_0,
                )
        }),
{
    let (after, pairs) = pairs_query_run(w, c, sql);
    let full = substituted(sql, Seq::empty());
    let (w1, ran) = w.capture(
        c.bin,
        seq!["sql"@, "-r"@, "json"@, "-q"@, full],
        Some(c.repo),
    );
    let rows = rows_read(ran->Ok_0.stdout)->Ok_0;
    assert(rows.take(0) =~= Seq::<Seq<JsonView>>::empty());
    lemma_pairs_read(rows, 0, Seq::empty());
    assert(after == w1);
    assert(pairs_told(w0, after, c.repo, c.bin, full, ran->Ok_0.stdout, pairs->Ok_0));
}

/// The tree is drawn of the managed subcontexts and of the links that the
/// system's database tells, each subcontext once, with the system at its top.
pub proof fn tree_is_drawn_of_what_the_database_tells(w: World, env: EnvView)
    requires
        tree_run(w, env).1 is Ok,
    ensures
        ({
            let (after, text) = tree_run(w, env);
            let base = path_join(root_of(env)->Ok_0, "global"@);
            &&& root_of(env) is Ok
            &&& exists|
                bin: Text,
                o1: Text,
                o2: Text,
                managed: Seq<(Text, Text)>,
                links: Seq<(Text, Text)>,
                system: Text,
                w1: World,
                w2: World,
            | #[trigger]
                pairs_told(
                    w,
                    w1,
                    path_join(base, "dolt"@),
                    bin,
                    substituted(
                        "SELECT uuid, `type` FROM objects WHERE `type` = 'managed'"@,
                        Seq::empty(),
                    ),
                    o1,
                    managed,
                ) && #[trigger] pairs_told(
                    w1,
                    w2,
                    path_join(base, "dolt"@),
                    bin,
                    substituted("SELECT child_uuid, parent_uuid FROM parents"@, Seq::empty()),
                    o2,
                    links,
                ) && (after, text) == #[trigger] family_run(
                    w2,
                    (FamilyView {
                        repo: path_join(base, "repo"@),
                        managed: distinct(managed),
                        links,
                    }),
                    system,
                )
        }),
{
    let (after, text) = tree_run(w, env);
    let base = path_join(root_of(env)->Ok_0, "global"@);
    let (w0, there) = exists_run(w, env);
    lemma_system(w, w0, env);
    let (ws, found) = system_run(w0, env);
    let (scope, conn) = found->Ok_0;
    let q1 = "SELECT uuid, `type` FROM objects WHERE `type` = 'managed'"@;
    let q2 = "SELECT child_uuid, parent_uuid FROM parents"@;
    lemma_pairs_query(w, ws, conn, q1);
    let (w1, managed) = pairs_query_run(ws, conn, q1);
    lemma_pairs_query(w1, w1, conn, q2);
    let (w2, links) = pairs_query_run(w1, conn, q2);
    let o1 = choose|output: Text| #[trigger]
        pairs_told(
            w,
            w1,
            conn.repo,
            conn.bin,
            substituted(q1, Seq::empty()),
            output,
            managed->Ok_0,
        );
    let o2 = choose|output: Text| #[trigger]
        pairs_told(
            w1,
            w2,
            conn.repo,
            conn.bin,
            substituted(q2, Seq::empty()),
            output,
            links->Ok_0,
        );
    assert(pairs_told(
        w,
        w1,
        path_join(base, "dolt"@),
        conn.bin,
        substituted(q1, Seq::empty()),
        o1,
        managed->Ok_0,
    ));
    assert(pairs_told(
        w1,
        w2,
        path_join(base, "dolt"@),
        conn.bin,
        substituted(q2, Seq::empty()),
        o2,
        links->Ok_0,
    ));
    assert((after, text) == family_run(
        w2,
        (FamilyView {
            repo: path_join(base, "repo"@),
            managed: distinct(managed->Ok_0),
            links: links->Ok_0,
        }),
        scope.project_uuid,
    ));
}

/// Among managed subcontexts each is drawn once, and none that is there is left
/// out.
pub proof fn distinct_keeps_every_name(pairs: Seq<(Text, Text)>, name: Text)
    ensures
        is_named(distinct(pairs), name) <==> is_named(pairs, name),
        forall|i: int, j: int|
            0 <= i < j < distinct(pairs).len() ==> (#[trigger] distinct(pairs)[i]).0 != (
            #[trigger] distinct(pairs)[j]).0,
    decreases pairs.len(),
{
    if pairs.len() > 0 {
        let front = pairs.drop_last();
        let last = pairs.last();
        distinct_keeps_every_name(front, name);
        distinct_keeps_every_name(front, last.0);
        let before = distinct(front);
        let all = distinct(pairs);
        if is_named(pairs, name) {
            let i = choose|i: int| 0 <= i < pairs.len() && (#[trigger] pairs[i]).0 == name;
            if i < front.len() {
                assert(front[i].0 == name);
            }
        }
        if is_named(front, name) {
            let i = choose|i: int| 0 <= i < front.len() && (#[trigger] front[i]).0 == name;
            assert(pairs[i].0 == name);
        }
        assert(pairs[pairs.len() - 1].0 == last.0);
        if !is_named(before, last.0) {
            assert(all == before.push(last));
            assert(all[all.len() - 1].0 == last.0);
            if is_named(before, name) {
                let i = choose|i: int| 0 <= i < before.len() && (#[trigger] before[i]).0 == name;
                assert(all[i].0 == name);
            }
            if is_named(all, name) {
                let i = choose|i: int| 0 <= i < all.len() && (#[trigger] all[i]).0 == name;
                if i < before.len() {
                    assert(before[i].0 == name);
                }
            }
            assert forall|i: int, j: int| 0 <= i < j < all.len() implies (#[trigger] all[i]).0 != (
            #[trigger] all[j]).0 by {
                assert(all[i] == before[i]);
                if j < before.len() {
                    assert(all[j] == before[j]);
                } else {
                    assert(before[i].0 != last.0);
                }
            }
        }
    }
}

} // verus!
