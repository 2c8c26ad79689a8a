//! What holds of texts and of paths.

use vstd::prelude::*;

use crate::paths::{file_name_of, last_start, parent_of, path_join, trimmed_right};
use crate::text::{
    is_space, joined, lemma_first_index_is, split_at, trimmed, trimmed_end, trimmed_start, Text,
};

verus! {

// ─── Trimming ────────────────────────────────────────────────────────

proof fn lemma_trimmed_start(s: Text)
    ensures
        trimmed_start(s).len() <= s.len(),
        trimmed_start(s) == s.skip(s.len() - trimmed_start(s).len()),
        forall|i: int| 0 <= i < s.len() - trimmed_start(s).len() ==> is_space(#[trigger] s[i]),
        trimmed_start(s).len() > 0 ==> !is_space(trimmed_start(s)[0]),
    decreases s.len(),
{
    if s.len() > 0 && is_space(s[0]) {
        let rest = s.skip(1);
        lemma_trimmed_start(rest);
        let n = rest.len() - trimmed_start(rest).len();
        assert(s.skip(n + 1) =~= rest.skip(n));
        assert forall|i: int| 0 <= i < n + 1 implies is_space(#[trigger] s[i]) by {
            if i > 0 {
                assert(rest[i - 1] == s[i]);
            }
        }
    } else {
        assert(s.skip(0) =~= s);
    }
}

proof fn lemma_trimmed_end(s: Text)
    ensures
        trimmed_end(s).len() <= s.len(),
        trimmed_end(s) == s.take(trimmed_end(s).len() as int),
        forall|i: int| trimmed_end(s).len() <= i < s.len() ==> is_space(#[trigger] s[i]),
        trimmed_end(s).len() > 0 ==> !is_space(trimmed_end(s).last()),
    decreases s.len(),
{
    if s.len() > 0 && is_space(s.last()) {
        let rest = s.drop_last();
        lemma_trimmed_end(rest);
        let n = trimmed_end(rest).len() as int;
        assert(s.take(n) =~= rest.take(n));
        assert forall|i: int| n <= i < s.len() implies is_space(#[trigger] s[i]) by {
            if i < rest.len() {
                assert(rest[i] == s[i]);
            }
        }
    } else {
        assert(s.take(s.len() as int) =~= s);
    }
}

/// Trimming takes away just the space around a text: what is left begins and ends
/// with no space, and only space stood before and behind it.
pub proof fn trimming_takes_the_space_around(s: Text)
    ensures
        ({
            let t = trimmed(s);
            &&& t.len() > 0 ==> !is_space(t[0]) && !is_space(t.last())
            &&& exists|from: int|
                #![trigger s.skip(from)]
                0 <= from && from + t.len() <= s.len() && t == s.subrange(from, from + t.len()) && (
                forall|i: int| 0 <= i < from ==> is_space(#[trigger] s[i])) && (forall|i: int|
                    from + t.len() <= i < s.len() ==> is_space(#[trigger] s[i]))
        }),
{
    lemma_trimmed_start(s);
    let a = trimmed_start(s);
    lemma_trimmed_end(a);
    let t = trimmed(s);
    let from = s.len() - a.len();
    assert(a == s.skip(from));
    assert(t =~= s.subrange(from, from + t.len()));
    if t.len() > 0 {
        assert(t[0] == a[0]);
    }
    assert forall|i: int| from + t.len() <= i < s.len() implies is_space(#[trigger] s[i]) by {
        assert(a[i - from] == s[i]);
    }
}

// ─── Joining and splitting ───────────────────────────────────────────

proof fn lemma_split_one(s: Text, c: char, rest: Text)
    requires
        forall|i: int| 0 <= i < s.len() ==> s[i] != c,
    ensures
        split_at(s, c) == seq![s],
        split_at(s + seq![c] + rest, c) == seq![s] + split_at(rest, c),
{
    lemma_first_index_is(s, c, s.len() as int);
    let whole = s + seq![c] + rest;
    assert(whole[s.len() as int] == c);
    assert forall|i: int| 0 <= i < s.len() implies whole[i] != c by {
        assert(whole[i] == s[i]);
    }
    lemma_first_index_is(whole, c, s.len() as int);
    assert(whole.take(s.len() as int) =~= s);
    assert(whole.skip(s.len() as int + 1) =~= rest);
}

proof fn lemma_joined_first(items: Seq<Text>, sep: Text)
    requires
        items.len() > 1,
    ensures
        joined(items, sep) == items[0] + sep + joined(items.skip(1), sep),
    decreases items.len(),
{
    let rest = items.skip(1);
    if items.len() == 2 {
        assert(items.drop_last().len() == 1);
        assert(joined(items.drop_last(), sep) == items[0]);
        assert(joined(rest, sep) == rest[0]);
    } else {
        let front = items.drop_last();
        lemma_joined_first(front, sep);
        assert(front.skip(1) =~= rest.drop_last());
        assert(joined(items, sep) =~= items[0] + sep + (joined(rest.drop_last(), sep) + sep
            + rest.last()));
        assert(rest.last() == items.last());
    }
}

/// Texts that are joined by a character that none of them holds are what splitting
/// at that character gives.
pub proof fn splitting_undoes_joining(items: Seq<Text>, c: char)
    requires
        items.len() > 0,
        forall|i: int, k: int|
            0 <= i < items.len() && 0 <= k < items[i].len() ==> #[trigger] items[i][k] != c,
    ensures
        split_at(joined(items, seq![c]), c) == items,
    decreases items.len(),
{
    let first = items[0];
    assert forall|k: int| 0 <= k < first.len() implies first[k] != c by {
        assert(items[0][k] != c);
    }
    if items.len() == 1 {
        lemma_split_one(first, c, Seq::empty());
        assert(seq![first] =~= items);
    } else {
        let rest = items.skip(1);
        lemma_joined_first(items, seq![c]);
        assert forall|i: int, k: int|
            0 <= i < rest.len() && 0 <= k < rest[i].len() implies #[trigger] rest[i][k] != c by {
            assert(items[i + 1][k] != c);
        }
        splitting_undoes_joining(rest, c);
        lemma_split_one(first, c, joined(rest, seq![c]));
        assert(seq![first] + rest =~= items);
    }
}

// ─── Paths ───────────────────────────────────────────────────────────

/// Is the text a name: not empty, not a dot, and without a slash?
pub open spec fn is_plain_name(name: Text) -> bool {
    &&& name.len() > 0
    &&& forall|i: int| 0 <= i < name.len() ==> name[i] != '/'
    &&& name != "."@
    &&& name != ".."@
}

proof fn lemma_last_start(head: Text, name: Text)
    requires
        forall|i: int| 0 <= i < name.len() ==> name[i] != '/',
        head.len() == 0 || head.last() == '/',
    ensures
        last_start(head + name) == head.len(),
    decreases name.len(),
{
    let path = head + name;
    if name.len() == 0 {
        assert(path =~= head);
    } else {
        assert(path.last() == name.last());
        assert(name[name.len() - 1] != '/');
        assert(path.drop_last() =~= head + name.drop_last());
        assert forall|i: int| 0 <= i < name.drop_last().len() implies name.drop_last()[i]
            != '/' by {
            assert(name[i] != '/');
        }
        lemma_last_start(head, name.drop_last());
    }
}

/// What lies in a directory under a name has that name, and the directory for its
/// parent, up to what stands at the directory's end without meaning.
pub proof fn joined_name_lies_in_its_directory(dir: Text, name: Text)
    requires
        is_plain_name(name),
    ensures
        file_name_of(path_join(dir, name)) == Some(name),
        parent_of(path_join(dir, name)) is Some,
        dir.len() > 0 ==> parent_of(path_join(dir, name)) == Some(
            trimmed_right(
                if dir.last() == '/' {
                    dir
                } else {
                    dir + seq!['/']
                },
            ),
        ),
{
    reveal_strlit("/");
    reveal_strlit(".");
    reveal_strlit("..");
    assert("/"@ =~= seq!['/']);
    assert("."@ =~= seq!['.']);
    assert(name[0] != '/');
    let path = path_join(dir, name);
    let head = if dir.len() == 0 || dir.last() == '/' {
        dir
    } else {
        dir + seq!['/']
    };
    assert(path =~= head + name);
    assert(path.last() == name.last());
    assert(name[name.len() - 1] != '/');
    if path.len() > 1 && path.last() == '.' && path[path.len() - 2] == '/' {
        if name.len() > 1 {
            assert(path[path.len() - 2] == name[name.len() - 2]);
        } else {
            assert(name =~= "."@);
        }
    }
    assert(trimmed_right(path) == path);
    lemma_last_start(head, name);
    assert(path.skip(head.len() as int) =~= name);
    assert(path.take(head.len() as int) =~= head);
}

} // verus!
