//! Normalized paths: what is left when `.` and `..` are resolved.

use vstd::prelude::*;

use crate::paths::{
    body_parts, is_rooted, is_top, last_start, parent_of, parts, path_join, segment_parts,
    trimmed_right, walked, with_part, Part,
};
use crate::text::{first_index, lemma_first_index, lemma_first_index_is, split_at, Text};

verus! {

/// The parts `acc` with the part `p` resolved: a `..` takes away the name before
/// it, if there is one, and a `.` means nothing.
pub open spec fn stepped(acc: Seq<Part>, p: Part) -> Seq<Part> {
    match p {
        Part::Root => seq![Part::Root],
        Part::Current => acc,
        Part::Parent => if acc.len() > 0 && acc.last() is Name {
            acc.drop_last()
        } else {
            acc
        },
        Part::Name(_) => acc.push(p),
    }
}

/// The parts with every `.` and `..` resolved.
pub open spec fn resolved(ps: Seq<Part>) -> Seq<Part>
    decreases ps.len(),
{
    if ps.len() == 0 {
        Seq::empty()
    } else {
        stepped(resolved(ps.drop_last()), ps.last())
    }
}

/// Can the text be the name in a part?
pub open spec fn is_name(n: Text) -> bool {
    &&& n.len() > 0
    &&& n != "."@
    &&& n != ".."@
    &&& forall|i: int| 0 <= i < n.len() ==> n[i] != '/'
}

/// Is every name one, and the root at the front alone?
pub open spec fn is_sound(ps: Seq<Part>) -> bool {
    forall|i: int|
        #![trigger ps[i]]
        0 <= i < ps.len() ==> (ps[i] is Root ==> i == 0) && (ps[i] is Name ==> is_name(
            ps[i]->Name_0,
        ))
}

/// Are there names alone, behind the root if there is one?
pub open spec fn is_normal(ps: Seq<Part>) -> bool {
    &&& is_sound(ps)
    &&& forall|i: int| 0 <= i < ps.len() ==> (#[trigger] ps[i]) is Root || ps[i] is Name
}

/// The path that these parts make.
spec fn text_of(ps: Seq<Part>) -> Text
    decreases ps.len(),
{
    if ps.len() == 0 {
        Seq::empty()
    } else {
        with_part(text_of(ps.drop_last()), ps.last())
    }
}

// ─── Splitting ───────────────────────────────────────────────────────

proof fn lemma_split_join(a: Text, c: char, b: Text)
    ensures
        split_at(a + seq![c] + b, c) == split_at(a, c) + split_at(b, c),
    decreases a.len(),
{
    let whole = a + seq![c] + b;
    lemma_first_index(a, c);
    let n = first_index(a, c);
    assert forall|i: int| 0 <= i < n implies whole[i] != c by {
        assert(whole[i] == a[i]);
    }
    lemma_first_index_is(whole, c, n);
    if n < a.len() {
        let rest = a.skip(n + 1);
        lemma_split_join(rest, c, b);
        assert(whole.skip(n + 1) =~= rest + seq![c] + b);
        assert(whole.take(n) =~= a.take(n));
        assert(split_at(whole, c) =~= split_at(a, c) + split_at(b, c));
    } else {
        assert(whole.skip(n + 1) =~= b);
        assert(whole.take(n) =~= a);
        assert(split_at(whole, c) =~= split_at(a, c) + split_at(b, c));
    }
}

proof fn lemma_split_whole(n: Text, c: char)
    requires
        forall|i: int| 0 <= i < n.len() ==> n[i] != c,
    ensures
        split_at(n, c) == seq![n],
{
    lemma_first_index_is(n, c, n.len() as int);
}

proof fn lemma_pieces_are_plain(s: Text, c: char)
    ensures
        forall|i: int, j: int|
            0 <= i < split_at(s, c).len() && 0 <= j < split_at(s, c)[i].len()
                ==> #[trigger] split_at(s, c)[i][j] != c,
    decreases s.len(),
{
    lemma_first_index(s, c);
    let n = first_index(s, c);
    if 0 <= n < s.len() {
        let rest = s.skip(n + 1);
        lemma_pieces_are_plain(rest, c);
        let all = split_at(s, c);
        assert forall|i: int, j: int| 0 <= i < all.len() && 0 <= j < all[i].len() implies
            #[trigger] all[i][j] != c by {
            if i == 0 {
                assert(all[0] == s.take(n));
            } else {
                assert(all[i] == split_at(rest, c)[i - 1]);
                assert(split_at(rest, c)[i - 1][j] != c);
            }
        }
    }
}

proof fn lemma_body_parts_sound(segments: Seq<Text>)
    requires
        forall|i: int, j: int|
            0 <= i < segments.len() && 0 <= j < segments[i].len()
                ==> #[trigger] segments[i][j] != '/',
    ensures
        forall|i: int|
            0 <= i < body_parts(segments).len() ==> !((#[trigger] body_parts(segments)[i]) is Root)
                && !(body_parts(segments)[i] is Current) && (body_parts(segments)[i] is Name
                ==> is_name(body_parts(segments)[i]->Name_0)),
    decreases segments.len(),
{
    if segments.len() > 0 {
        let front = segments.drop_last();
        assert forall|i: int, j: int| 0 <= i < front.len() && 0 <= j < front[i].len() implies
            #[trigger] front[i][j] != '/' by {
            assert(segments[i][j] != '/');
        }
        lemma_body_parts_sound(front);
        let last = segments.last();
        assert forall|j: int| 0 <= j < last.len() implies last[j] != '/' by {
            assert(segments[segments.len() - 1][j] != '/');
        }
        let all = body_parts(segments);
        assert(all == body_parts(front) + segment_parts(last));
        assert forall|i: int| 0 <= i < all.len() implies !((#[trigger] all[i]) is Root) && !(
        all[i] is Current) && (all[i] is Name ==> is_name(all[i]->Name_0)) by {
            if i < body_parts(front).len() {
                assert(all[i] == body_parts(front)[i]);
            } else {
                assert(all[i] == segment_parts(last)[i - body_parts(front).len()]);
            }
        }
    }
}

proof fn lemma_body_of_one(segment: Text)
    ensures
        body_parts(seq![segment]) == segment_parts(segment),
{
    let front = seq![segment].drop_last();
    assert(front =~= Seq::<Text>::empty());
    assert(body_parts(front) =~= Seq::<Part>::empty());
    assert(body_parts(seq![segment]) =~= segment_parts(segment));
}

/// The parts of a path are sound.
proof fn lemma_parts_are_sound(path: Text)
    ensures
        is_sound(parts(path)),
        parts(path).len() > 0 && parts(path)[0] is Root ==> is_rooted(path),
{
    let segments = split_at(path, '/');
    lemma_pieces_are_plain(path, '/');
    lemma_body_parts_sound(segments);
    let ps = parts(path);
    assert forall|i: int| #![trigger ps[i]] 0 <= i < ps.len() implies (ps[i] is Root ==> i == 0)
        && (ps[i] is Name ==> is_name(ps[i]->Name_0)) by {
        let body = body_parts(segments);
        if is_rooted(path) || segments[0] == "."@ {
            if i > 0 {
                assert(ps[i] == body[i - 1]);
            }
        } else {
            assert(ps[i] == body[i]);
        }
    }
    if ps.len() > 0 && ps[0] is Root && !is_rooted(path) {
        if segments[0] == "."@ {
            assert(ps[0] == Part::Current);
        } else {
            assert(ps[0] == body_parts(segments)[0]);
        }
    }
}

// ─── Paths of normal parts ───────────────────────────────────────────

proof fn lemma_normal_front(ps: Seq<Part>)
    requires
        is_normal(ps),
        ps.len() > 0,
    ensures
        is_normal(ps.drop_last()),
{
    let front = ps.drop_last();
    assert forall|i: int| 0 <= i < front.len() implies #[trigger] front[i] == ps[i] by {}
}

/// A path of normal parts: when it is empty, where it begins and ends, and that
/// its parts are those that it was made of.
proof fn lemma_text(ps: Seq<Part>)
    requires
        is_normal(ps),
    ensures
        ps.len() == 0 ==> text_of(ps).len() == 0,
        ps.len() > 0 ==> text_of(ps).len() > 0,
        ps == seq![Part::Root] ==> text_of(ps) == "/"@,
        ps.len() > 0 && ps.last() is Name ==> text_of(ps).last() != '/',
        is_rooted(text_of(ps)) <==> ps.len() > 0 && ps[0] is Root,
        parts(text_of(ps)) == ps,
    decreases ps.len(),
{
    reveal_strlit("/");
    reveal_strlit(".");
    let text = text_of(ps);
    if ps.len() == 0 {
        lemma_split_whole(text, '/');
        lemma_body_of_one(text);
        assert(parts(text) =~= ps);
    } else if ps.last() is Root {
        let front = ps.drop_last();
        assert(ps[ps.len() - 1] is Root);
        assert(ps.len() == 1);
        assert(front =~= Seq::<Part>::empty());
        assert(text == "/"@);
        let empty = Seq::<char>::empty();
        lemma_split_join(empty, '/', empty);
        lemma_split_whole(empty, '/');
        assert(empty + seq!['/'] + empty =~= text);
        let segments = split_at(text, '/');
        assert(segments =~= seq![empty, empty]);
        assert(segments.drop_last() =~= seq![empty]);
        lemma_body_of_one(empty);
        assert(body_parts(segments) =~= Seq::<Part>::empty());
        assert(parts(text) =~= ps);
        assert(ps =~= seq![Part::Root]);
    } else {
        let front = ps.drop_last();
        lemma_normal_front(ps);
        lemma_text(front);
        assert(ps[ps.len() - 1] is Name);
        let n = ps.last()->Name_0;
        assert(is_name(n));
        let t = text_of(front);
        assert(n[0] != '/');
        assert(text == path_join(t, n));
        lemma_split_whole(n, '/');
        assert(segment_parts(n) == seq![Part::Name(n)]);
        assert(front.push(Part::Name(n)) =~= ps);
        if front.len() == 0 {
            assert(text =~= n);
            lemma_body_of_one(n);
            assert(parts(text) =~= ps);
        } else if front.last() is Root {
            assert(front[front.len() - 1] is Root);
            assert(front =~= seq![Part::Root]);
            assert(text =~= "/"@ + n);
            let empty = Seq::<char>::empty();
            lemma_split_join(empty, '/', n);
            lemma_split_whole(empty, '/');
            assert(empty + seq!['/'] + n =~= text);
            let segments = split_at(text, '/');
            assert(segments =~= seq![empty, n]);
            assert(segments.drop_last() =~= seq![empty]);
            lemma_body_of_one(empty);
            assert(body_parts(segments) =~= seq![Part::Name(n)]);
            assert(parts(text) =~= ps);
        } else {
            assert(front[front.len() - 1] is Name);
            assert(text =~= t + "/"@ + n);
            assert(t + seq!['/'] + n =~= text);
            lemma_split_join(t, '/', n);
            let before = split_at(t, '/');
            let segments = split_at(text, '/');
            assert(segments =~= before.push(n));
            assert(segments.drop_last() =~= before);
            assert(segments[0] == before[0]);
            assert(text[0] == t[0]);
            assert(body_parts(segments) =~= body_parts(before).push(Part::Name(n)));
            assert(parts(text) =~= parts(t).push(Part::Name(n)));
        }
        assert(text.last() == n.last());
    }
}

proof fn lemma_last_start(a: Text, n: Text)
    requires
        forall|i: int| 0 <= i < n.len() ==> n[i] != '/',
        a.len() == 0 || a.last() == '/',
    ensures
        last_start(a + n) == a.len(),
    decreases n.len(),
{
    if n.len() == 0 {
        assert(a + n =~= a);
    } else {
        let front = n.drop_last();
        assert((a + n).drop_last() =~= a + front);
        assert((a + n).last() == n.last());
        assert forall|i: int| 0 <= i < front.len() implies front[i] != '/' by {
            assert(front[i] == n[i]);
        }
        lemma_last_start(a, front);
    }
}

/// A path of normal parts carries nothing without meaning at its end.
proof fn lemma_text_is_trimmed(ps: Seq<Part>)
    requires
        is_normal(ps),
    ensures
        trimmed_right(text_of(ps)) == text_of(ps),
{
    reveal_strlit("/");
    reveal_strlit(".");
    lemma_text(ps);
    let text = text_of(ps);
    if ps.len() > 0 {
        if ps.last() is Root {
            assert(ps[ps.len() - 1] is Root);
            assert(ps =~= seq![Part::Root]);
        } else {
            assert(ps[ps.len() - 1] is Name);
            let n = ps.last()->Name_0;
            assert(text == path_join(text_of(ps.drop_last()), n));
            assert(n[0] != '/');
            let k = text.len() - n.len();
            assert forall|i: int| 0 <= i < n.len() implies text[k + i] == n[i] by {}
            if text.last() == '.' && text.len() > 1 {
                assert(n.last() == '.');
                if n.len() == 1 {
                    assert(n =~= "."@);
                }
                assert(text[text.len() - 2] == n[n.len() - 2]);
            }
        }
    }
}

/// The parent of a path of normal parts is that of the parts without the last.
proof fn lemma_parent_of_text(ps: Seq<Part>)
    requires
        is_normal(ps),
    ensures
        parent_of(text_of(ps)) == (if ps.len() > 0 && ps.last() is Name {
            Some(text_of(ps.drop_last()))
        } else {
            None
        }),
{
    reveal_strlit("/");
    let text = text_of(ps);
    lemma_text(ps);
    lemma_text_is_trimmed(ps);
    if ps.len() > 0 && ps.last() is Name {
        let front = ps.drop_last();
        lemma_normal_front(ps);
        lemma_text(front);
        lemma_text_is_trimmed(front);
        assert(ps[ps.len() - 1] is Name);
        let n = ps.last()->Name_0;
        assert(n[0] != '/');
        let t = text_of(front);
        let a = text.take(text.len() - n.len());
        assert(text == path_join(t, n));
        assert(text =~= a + n);
        if front.len() > 0 && front.last() is Root {
            assert(front[front.len() - 1] is Root);
            assert(front =~= seq![Part::Root]);
            assert(a =~= t);
        } else if front.len() == 0 {
            assert(a =~= t);
        } else {
            assert(front[front.len() - 1] is Name);
            assert(a =~= t + "/"@);
            assert(a.drop_last() =~= t);
        }
        lemma_last_start(a, n);
        assert(text.take(last_start(text)) =~= a);
        assert(trimmed_right(a) == t);
        assert(!is_top(text));
    } else if ps.len() > 0 {
        assert(ps[ps.len() - 1] is Root);
        assert(ps =~= seq![Part::Root]);
        assert(is_top(text));
    }
}

/// Walking sound parts leads to the path of their resolved form.
proof fn lemma_walked(ps: Seq<Part>)
    requires
        is_sound(ps),
    ensures
        is_normal(resolved(ps)),
        walked(ps) == text_of(resolved(ps)),
    decreases ps.len(),
{
    if ps.len() > 0 {
        let front = ps.drop_last();
        assert forall|i: int|
            #![trigger front[i]]
            0 <= i < front.len() implies (front[i] is Root ==> i == 0) && (front[i] is Name
            ==> is_name(front[i]->Name_0)) by {
            assert(front[i] == ps[i]);
        }
        lemma_walked(front);
        let acc = resolved(front);
        let p = ps.last();
        let next = stepped(acc, p);
        assert(ps[ps.len() - 1] == p);
        match p {
            Part::Root => {
                assert(ps.len() == 1);
                assert(front =~= Seq::<Part>::empty());
                assert(next.drop_last() =~= Seq::<Part>::empty());
            },
            Part::Current => {},
            Part::Parent => {
                lemma_parent_of_text(acc);
                if acc.len() > 0 && acc.last() is Name {
                    lemma_normal_front(acc);
                }
            },
            Part::Name(n) => {
                assert(next.drop_last() =~= acc);
                assert forall|i: int| 0 <= i < next.len() implies (#[trigger] next[i]) is Root
                    || next[i] is Name by {
                    if i < acc.len() {
                        assert(next[i] == acc[i]);
                    }
                }
                assert forall|i: int|
                    #![trigger next[i]]
                    0 <= i < next.len() implies (next[i] is Root ==> i == 0) && (next[i] is Name
                    ==> is_name(next[i]->Name_0)) by {
                    if i < acc.len() {
                        assert(next[i] == acc[i]);
                    }
                }
            },
        }
    }
}

// ─── Laws ────────────────────────────────────────────────────────────

/// The parts of a normalized path are those of the path with every `.` and `..`
/// resolved; neither is left.
pub proof fn normalizing_resolves_dots(path: Text)
    ensures
        parts(walked(parts(path))) == resolved(parts(path)),
        forall|i: int|
            0 <= i < resolved(parts(path)).len() ==> (#[trigger] resolved(parts(path))[i]) is Root
                || resolved(parts(path))[i] is Name,
        is_rooted(walked(parts(path))) ==> is_rooted(path),
{
    lemma_parts_are_sound(path);
    lemma_walked(parts(path));
    lemma_text(resolved(parts(path)));
    lemma_root_is_kept(parts(path));
}

/// Resolving brings in no root.
proof fn lemma_root_is_kept(ps: Seq<Part>)
    requires
        is_sound(ps),
    ensures
        resolved(ps).len() > 0 && resolved(ps)[0] is Root ==> ps.len() > 0 && ps[0] is Root,
    decreases ps.len(),
{
    if ps.len() > 0 {
        let front = ps.drop_last();
        assert forall|i: int|
            #![trigger front[i]]
            0 <= i < front.len() implies (front[i] is Root ==> i == 0) && (front[i] is Name
            ==> is_name(front[i]->Name_0)) by {
            assert(front[i] == ps[i]);
        }
        lemma_root_is_kept(front);
        assert(ps[ps.len() - 1] == ps.last());
    }
}

/// Normalizing twice is normalizing once.
pub proof fn normalizing_is_idempotent(path: Text)
    ensures
        walked(parts(walked(parts(path)))) == walked(parts(path)),
{
    lemma_parts_are_sound(path);
    lemma_walked(parts(path));
    let normal = resolved(parts(path));
    lemma_text(normal);
    lemma_walked(normal);
    lemma_resolved_stays(normal);
}

proof fn lemma_resolved_stays(ps: Seq<Part>)
    requires
        is_normal(ps),
    ensures
        resolved(ps) == ps,
    decreases ps.len(),
{
    if ps.len() > 0 {
        lemma_normal_front(ps);
        lemma_resolved_stays(ps.drop_last());
        assert(ps[ps.len() - 1] == ps.last());
        if ps.last() is Root {
            assert(ps.len() == 1);
        } else {
            assert(ps.drop_last().push(ps.last()) =~= ps);
        }
        assert(resolved(ps) =~= ps);
    } else {
        assert(resolved(ps) =~= ps);
    }
}

} // verus!
